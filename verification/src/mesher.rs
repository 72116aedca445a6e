//! Turns the voxels of a chunk into renderable geometry: one quad for every
//! face of a solid voxel that no solid voxel hides, each vertex shaded by the
//! voxels around it.
//!
//! A mesh is built from the chunk and from whichever of its neighbors are
//! resident at that moment; a neighbor that is not counts as air. A mesh is
//! built once: a face that was drawn against a missing neighbor stays in the
//! mesh when the neighbor arrives.

use crate::asset_loader::get_texture_index;
use crate::asset_loader::AssetRegistry;
use crate::asset_loader::Face;
use crate::chunk::abs;
use crate::chunk::in_bounds;
use crate::chunk::voxel_index;
use crate::chunk::Chunk;
use crate::chunk::ChunkCoordinate;
use crate::chunk::Voxel;
use crate::chunk::CHUNK_VOLUME;
use crate::chunk_store::solid_in;
use crate::chunk_store::ChunkStore;
use crate::model::pack_texture_ambient;
use crate::model::spec_pack_texture_ambient;
use crate::model::IVec3;
use crate::model::MeshVertex;
use vstd::prelude::*;

verus! {

/// The six directions a face can look in, each with the kind of face it is and
/// its normal: up, down, right, left, front, back.
pub const FACE_NORMALS: [(Face, [i64; 3]); 6] = [
    (Face::Up, [0, 1, 0]),
    (Face::Down, [0, -1, 0]),
    (Face::Side, [1, 0, 0]),
    (Face::Side, [-1, 0, 0]),
    (Face::Side, [0, 0, 1]),
    (Face::Side, [0, 0, -1]),
];

/// The two triangles of a quad, over its four corners.
pub const FACE_INDICES: [u32; 6] = [0, 1, 2, 2, 3, 0];

/// The corners of each face in half voxels from the voxel's centre, wound
/// counter-clockwise as seen from outside.
pub const FACE_VERTICES: [[[i64; 3]; 4]; 6] = [
    // up
    [[-1, 1, -1], [-1, 1, 1], [1, 1, 1], [1, 1, -1]],
    // down
    [[-1, -1, 1], [-1, -1, -1], [1, -1, -1], [1, -1, 1]],
    // right
    [[1, 1, 1], [1, -1, 1], [1, -1, -1], [1, 1, -1]],
    // left
    [[-1, 1, -1], [-1, -1, -1], [-1, -1, 1], [-1, 1, 1]],
    // front
    [[-1, 1, 1], [-1, -1, 1], [1, -1, 1], [1, 1, 1]],
    // back
    [[1, 1, -1], [1, -1, -1], [-1, -1, -1], [-1, 1, -1]],
];

/// For each face, the ring of eight voxels around it in the layer the face looks
/// into: edges at the even places, corners at the odd ones. Corner `k` of the
/// face lies between the samples `2k`, `2k + 1` and `2k + 2`.
pub const AMBIENT_NEIGHBOR_OFFSETS: [[[i64; 3]; 8]; 6] = [
    // top
    [[0, 1, -1], [-1, 1, -1], [-1, 1, 0], [-1, 1, 1], [0, 1, 1], [1, 1, 1], [1, 1, 0], [1, 1, -1]],
    // bottom
    [
        [0, -1, -1],
        [-1, -1, -1],
        [-1, -1, 0],
        [-1, -1, 1],
        [0, -1, 1],
        [1, -1, 1],
        [1, -1, 0],
        [1, -1, -1],
    ],
    // right
    [[1, 1, 0], [1, 1, 1], [1, 0, 1], [1, -1, 1], [1, -1, 0], [1, -1, -1], [1, 0, -1], [1, 1, -1]],
    // left
    [
        [-1, 1, 0],
        [-1, 1, -1],
        [-1, 0, -1],
        [-1, -1, -1],
        [-1, -1, 0],
        [-1, -1, 1],
        [-1, 0, 1],
        [-1, 1, 1],
    ],
    // front
    [[0, 1, 1], [-1, 1, 1], [-1, 0, 1], [-1, -1, 1], [0, -1, 1], [1, -1, 1], [1, 0, 1], [1, 1, 1]],
    // back
    [
        [0, 1, -1],
        [-1, 1, -1],
        [-1, 0, -1],
        [-1, -1, -1],
        [0, -1, -1],
        [1, -1, -1],
        [1, 0, -1],
        [1, 1, -1],
    ],
];

/// The occlusion level of a vertex that no neighbor darkens.
pub const UNOCCLUDED: u32 = 3;

/// The occlusion level of a vertex that is fully dark.
pub const FULLY_OCCLUDED: u32 = 0;

/// The ambient occlusion level of a vertex, from the two edge samples and the
/// corner sample next to it (1 where the sampled voxel is solid, else 0). Two
/// solid edges make the vertex fully dark whatever the corner holds; otherwise
/// each solid sample takes one level off the brightest.
pub open spec fn spec_ao_value(side_0: int, corner: int, side_1: int) -> int {
    if side_0 == 1 && side_1 == 1 {
        0
    } else {
        3 - (side_0 + side_1 + corner)
    }
}

/// The ambient occlusion level of a vertex, from the two edge samples and the
/// corner sample next to it.
pub fn ao_value(side_0: u32, corner: u32, side_1: u32) -> (level: u32)
    requires
        side_0 <= 1,
        corner <= 1,
        side_1 <= 1,
    ensures
        level == spec_ao_value(side_0 as int, corner as int, side_1 as int),
        level <= UNOCCLUDED,
        side_0 == 1 && side_1 == 1 ==> level == FULLY_OCCLUDED,
{
    if side_0 == 1 && side_1 == 1 {
        // fully dark
        0
    } else {
        3 - (side_0 + side_1 + corner)
    }
}

/// A vertex whose two adjacent edge samples are both solid is fully dark,
/// regardless of its corner sample.
pub proof fn lemma_two_solid_edges_are_dark(corner: int)
    ensures
        spec_ao_value(1, corner, 1) == FULLY_OCCLUDED,
{
}

/// Whether the voxel that lies `offset` away from the local voxel (x, y, z) of
/// `chunk` is solid, looking into neighboring chunks where it lies outside.
pub open spec fn sample(
    chunks: Map<ChunkCoordinate, Chunk>,
    chunk: Chunk,
    x: int,
    y: int,
    z: int,
    offset: [i64; 3],
) -> bool {
    solid_in(chunks, chunk.world_x(x) + offset[0], y + offset[1], chunk.world_z(z) + offset[2])
}

/// A sample as a number: 1 where the voxel is solid, else 0.
pub open spec fn sample_value(
    chunks: Map<ChunkCoordinate, Chunk>,
    chunk: Chunk,
    x: int,
    y: int,
    z: int,
    offset: [i64; 3],
) -> int {
    if sample(chunks, chunk, x, y, z, offset) {
        1
    } else {
        0
    }
}

/// The ambient occlusion level of corner `k` of the face `d` of a voxel.
pub open spec fn occlusion(
    chunks: Map<ChunkCoordinate, Chunk>,
    chunk: Chunk,
    x: int,
    y: int,
    z: int,
    d: int,
    k: int,
) -> int {
    spec_ao_value(
        sample_value(chunks, chunk, x, y, z, AMBIENT_NEIGHBOR_OFFSETS[d][2 * k]),
        sample_value(chunks, chunk, x, y, z, AMBIENT_NEIGHBOR_OFFSETS[d][2 * k + 1]),
        sample_value(chunks, chunk, x, y, z, AMBIENT_NEIGHBOR_OFFSETS[d][(2 * k + 2) % 8]),
    )
}

/// Whether the face `d` of the local voxel (x, y, z) is drawn: the voxel is
/// solid and the voxel that the face looks at is not.
pub open spec fn face_exposed(
    chunks: Map<ChunkCoordinate, Chunk>,
    chunk: Chunk,
    x: int,
    y: int,
    z: int,
    d: int,
) -> bool {
    chunk.solid_at(x, y, z) && !sample(chunks, chunk, x, y, z, FACE_NORMALS[d].1)
}

/// Whether the face `d` of the local voxel (x, y, z) has a texture if it is drawn.
pub open spec fn face_textured(
    chunks: Map<ChunkCoordinate, Chunk>,
    chunk: Chunk,
    registry: AssetRegistry,
    x: int,
    y: int,
    z: int,
    d: int,
) -> bool {
    face_exposed(chunks, chunk, x, y, z, d) ==> registry.texture_index(
        chunk.voxel_at(x, y, z),
        FACE_NORMALS[d].0,
    ).is_some()
}

/// Whether each of the first `n` faces of the local voxel (x, y, z) has a
/// texture if it is drawn.
pub open spec fn block_meshable(
    chunks: Map<ChunkCoordinate, Chunk>,
    chunk: Chunk,
    registry: AssetRegistry,
    x: int,
    y: int,
    z: int,
    n: int,
) -> bool {
    forall|d: int| 0 <= d < n ==> #[trigger] face_textured(chunks, chunk, registry, x, y, z, d)
}

/// Whether every face of the `i`-th voxel of the scan has a texture if it is
/// drawn.
pub open spec fn voxel_meshable(
    chunks: Map<ChunkCoordinate, Chunk>,
    chunk: Chunk,
    registry: AssetRegistry,
    i: int,
) -> bool {
    block_meshable(chunks, chunk, registry, i % 16, i / 256, (i / 16) % 16, 6)
}

/// Whether every face that would be drawn for `chunk` has a texture.
pub open spec fn meshable(
    chunks: Map<ChunkCoordinate, Chunk>,
    chunk: Chunk,
    registry: AssetRegistry,
) -> bool {
    forall|i: int| 0 <= i < CHUNK_VOLUME ==> #[trigger] voxel_meshable(chunks, chunk, registry, i)
}

/// Corner `k` of the face `d` of the local voxel (x, y, z).
pub open spec fn face_vertex(
    chunks: Map<ChunkCoordinate, Chunk>,
    chunk: Chunk,
    registry: AssetRegistry,
    x: int,
    y: int,
    z: int,
    d: int,
    k: int,
) -> MeshVertex {
    MeshVertex {
        pos: IVec3 {
            x: (2 * chunk.world_x(x) + FACE_VERTICES[d][k][0]) as i64,
            y: (2 * y + FACE_VERTICES[d][k][1]) as i64,
            z: (2 * chunk.world_z(z) + FACE_VERTICES[d][k][2]) as i64,
        },
        normal: IVec3 {
            x: FACE_NORMALS[d].1[0],
            y: FACE_NORMALS[d].1[1],
            z: FACE_NORMALS[d].1[2],
        },
        texture_ambient: spec_pack_texture_ambient(
            registry.texture_index(chunk.voxel_at(x, y, z), FACE_NORMALS[d].0).unwrap(),
            occlusion(chunks, chunk, x, y, z, d, k) as u32,
        ),
    }
}

/// The four corners of the face `d` of the local voxel (x, y, z).
pub open spec fn face_quad(
    chunks: Map<ChunkCoordinate, Chunk>,
    chunk: Chunk,
    registry: AssetRegistry,
    x: int,
    y: int,
    z: int,
    d: int,
) -> Seq<MeshVertex> {
    Seq::new(4, |k: int| face_vertex(chunks, chunk, registry, x, y, z, d, k))
}

/// The vertices of the drawn faces among the first `n` faces of the local voxel
/// (x, y, z), face after face.
pub open spec fn block_faces(
    chunks: Map<ChunkCoordinate, Chunk>,
    chunk: Chunk,
    registry: AssetRegistry,
    x: int,
    y: int,
    z: int,
    n: nat,
) -> Seq<MeshVertex>
    decreases n,
{
    if n == 0 {
        Seq::empty()
    } else {
        let before = block_faces(chunks, chunk, registry, x, y, z, (n - 1) as nat);
        if face_exposed(chunks, chunk, x, y, z, n - 1) {
            before + face_quad(chunks, chunk, registry, x, y, z, n - 1)
        } else {
            before
        }
    }
}

/// The vertices of the first `n` voxels of `chunk`, scanned by height, then
/// depth, then width.
pub open spec fn mesh_vertices(
    chunks: Map<ChunkCoordinate, Chunk>,
    chunk: Chunk,
    registry: AssetRegistry,
    n: nat,
) -> Seq<MeshVertex>
    decreases n,
{
    if n == 0 {
        Seq::empty()
    } else {
        let i = n - 1;
        mesh_vertices(chunks, chunk, registry, i as nat) + block_faces(
            chunks,
            chunk,
            registry,
            i % 16,
            i / 256,
            (i / 16) % 16,
            6,
        )
    }
}

/// The indices of `quads` quads: the two triangles of each, over its own four
/// vertices.
pub open spec fn quad_indices(quads: nat) -> Seq<u32> {
    Seq::new(6 * quads, |j: int| (4 * (j / 6) + FACE_INDICES[j % 6]) as u32)
}

/// Generates a mesh for a given chunk.
pub struct ChunkMesher<'a> {
    /// The chunk whose mesh is being built.
    chunk: &'a Chunk,
    /// The resident chunks, the neighbors of the chunk among them.
    chunks: &'a ChunkStore,
    /// The texture of each face.
    registry: &'a AssetRegistry,
    /// The vertices generated so far.
    vertices: Vec<MeshVertex>,
    /// The indices generated so far.
    indices: Vec<u32>,
}

impl<'a> ChunkMesher<'a> {
    /// The resident chunks that the mesher reads.
    pub closed spec fn chunks(&self) -> Map<ChunkCoordinate, Chunk> {
        self.chunks@
    }

    /// The chunk whose mesh is being built.
    pub closed spec fn chunk(&self) -> Chunk {
        *self.chunk
    }

    /// The textures that the mesher picks from.
    pub closed spec fn registry(&self) -> AssetRegistry {
        *self.registry
    }

    /// The vertices generated so far.
    pub closed spec fn vertices(&self) -> Seq<MeshVertex> {
        self.vertices@
    }

    /// The indices generated so far.
    pub closed spec fn indices(&self) -> Seq<u32> {
        self.indices@
    }

    /// The chunk is resident and what the mesher reads is well formed.
    pub closed spec fn inputs_wf(&self) -> bool {
        &&& self.chunks.wf()
        &&& self.registry.wf()
        &&& self.chunk.wf()
        &&& self.chunks@.contains_key(self.chunk.position)
        &&& self.chunks@[self.chunk.position] == *self.chunk
    }

    /// The chunk is resident, and the indices are those of the quads made so far.
    pub closed spec fn wf(&self) -> bool {
        &&& self.inputs_wf()
        &&& self.vertices@.len() % 4 == 0
        &&& self.vertices@.len() <= 24 * CHUNK_VOLUME
        &&& self.indices@ == quad_indices(self.vertices@.len() / 4)
    }

    /// Creates a new chunk mesh builder for the chunk at the given position, which
    /// has to be resident.
    pub fn new(chunks: &'a ChunkStore, registry: &'a AssetRegistry, chunk: ChunkCoordinate) -> (mesher:
        Self)
        requires
            chunks.wf(),
            registry.wf(),
            chunks@.contains_key(chunk),
        ensures
            mesher.wf(),
            mesher.chunks() == chunks@,
            mesher.chunk() == chunks@[chunk],
            mesher.registry() == *registry,
            mesher.vertices() == Seq::<MeshVertex>::empty(),
    {
        proof {
            chunks.lemma_valid();
        }
        let target: &Chunk = chunks.get(chunk).unwrap();
        let mesher = ChunkMesher {
            chunk: target,
            chunks,
            registry,
            vertices: Vec::new(),
            indices: Vec::new(),
        };
        assert(mesher.indices@ =~= quad_indices(0));
        mesher
    }

    /// Builds the vertices and indices for the chunk: for every solid voxel, in
    /// grid order, a quad for each face that no solid voxel hides. Every such
    /// face has to have a texture.
    pub fn build(self) -> (mesh: (Vec<MeshVertex>, Vec<u32>))
        requires
            self.wf(),
            self.vertices() == Seq::<MeshVertex>::empty(),
            meshable(self.chunks(), self.chunk(), self.registry()),
        ensures
            mesh.0@ == mesh_vertices(
                self.chunks(),
                self.chunk(),
                self.registry(),
                CHUNK_VOLUME as nat,
            ),
            mesh.0@.len() % 4 == 0,
            mesh.1@ == quad_indices(mesh.0@.len() / 4),
    {
        self.try_build().unwrap()
    }

    /// Builds the vertices and indices for the chunk, unless a face that is to
    /// be drawn has no texture.
    pub fn try_build(self) -> (mesh: Option<(Vec<MeshVertex>, Vec<u32>)>)
        requires
            self.wf(),
            self.vertices() == Seq::<MeshVertex>::empty(),
        ensures
            match mesh {
                Some(mesh) => {
                    &&& meshable(self.chunks(), self.chunk(), self.registry())
                    &&& mesh.0@ == mesh_vertices(
                        self.chunks(),
                        self.chunk(),
                        self.registry(),
                        CHUNK_VOLUME as nat,
                    )
                    &&& mesh.0@.len() % 4 == 0
                    &&& mesh.1@ == quad_indices(mesh.0@.len() / 4)
                },
                None => !meshable(self.chunks(), self.chunk(), self.registry()),
            },
    {
        let ghost chunks = self.chunks();
        let ghost chunk = self.chunk();
        let ghost registry = self.registry();
        let mut mesher = self;
        let mut i: usize = 0;
        while i < CHUNK_VOLUME
            invariant
                0 <= i <= CHUNK_VOLUME,
                self.chunks() == chunks,
                self.chunk() == chunk,
                self.registry() == registry,
                mesher.wf(),
                mesher.chunks() == chunks,
                mesher.chunk() == chunk,
                mesher.registry() == registry,
                forall|j: int| 0 <= j < i ==> #[trigger] voxel_meshable(chunks, chunk, registry, j),
                mesher.vertices@ == mesh_vertices(chunks, chunk, registry, i as nat),
                mesher.vertices@.len() <= 24 * i,
            decreases CHUNK_VOLUME - i,
        {
            if !mesher.add_block([i % 16, i / 256, (i / 16) % 16]) {
                assert(!voxel_meshable(chunks, chunk, registry, i as int));
                return None;
            }
            i = i + 1;
        }
        Some((mesher.vertices, mesher.indices))
    }

    /// Returns whether the voxel that lies `offset` away from the given local
    /// position is solid.
    fn is_solid(&self, position: [usize; 3], offset: [i64; 3]) -> (b: bool)
        requires
            self.wf(),
            in_bounds(position[0] as int, position[1] as int, position[2] as int),
            -1 <= offset[0] <= 1,
            -1 <= offset[1] <= 1,
            -1 <= offset[2] <= 1,
        ensures
            b == sample(
                self.chunks(),
                self.chunk(),
                position[0] as int,
                position[1] as int,
                position[2] as int,
                offset,
            ),
    {
        self.chunks.is_solid(self.chunk.offset_local_in_direction(position, offset))
    }

    /// One sample of the ring around a face, as a number.
    fn ambient_sample(&self, position: [usize; 3], normal_index: usize, i: usize) -> (n: u32)
        requires
            self.wf(),
            in_bounds(position[0] as int, position[1] as int, position[2] as int),
            normal_index < 6,
            i < 8,
        ensures
            n <= 1,
            n == sample_value(
                self.chunks(),
                self.chunk(),
                position[0] as int,
                position[1] as int,
                position[2] as int,
                AMBIENT_NEIGHBOR_OFFSETS[normal_index as int][i as int],
            ),
    {
        proof {
            lemma_ring_is_adjacent(normal_index as int, i as int);
        }
        let offset: [i64; 3] = AMBIENT_NEIGHBOR_OFFSETS[normal_index][i];
        if self.is_solid(position, offset) {
            1
        } else {
            0
        }
    }

    /// Gets the ambient occlusion values for the given normal direction and position. The order of
    /// the ao values matches the order of the vertices.
    fn calculate_ambient_occlusion(&self, position: [usize; 3], normal_index: usize) -> (levels: [u32; 4])
        requires
            self.wf(),
            in_bounds(position[0] as int, position[1] as int, position[2] as int),
            normal_index < 6,
        ensures
            forall|k: int|
                0 <= k < 4 ==> #[trigger] levels[k] == occlusion(
                    self.chunks(),
                    self.chunk(),
                    position[0] as int,
                    position[1] as int,
                    position[2] as int,
                    normal_index as int,
                    k,
                ),
            forall|k: int| 0 <= k < 4 ==> #[trigger] levels[k] <= UNOCCLUDED,
    {
        let n0: u32 = self.ambient_sample(position, normal_index, 0);
        let n1: u32 = self.ambient_sample(position, normal_index, 1);
        let n2: u32 = self.ambient_sample(position, normal_index, 2);
        let n3: u32 = self.ambient_sample(position, normal_index, 3);
        let n4: u32 = self.ambient_sample(position, normal_index, 4);
        let n5: u32 = self.ambient_sample(position, normal_index, 5);
        let n6: u32 = self.ambient_sample(position, normal_index, 6);
        let n7: u32 = self.ambient_sample(position, normal_index, 7);
        [ao_value(n0, n1, n2), ao_value(n2, n3, n4), ao_value(n4, n5, n6), ao_value(n6, n7, n0)]
    }

    /// Corner `k` of the face `normal_index` of the voxel at the given position.
    fn corner_vertex(
        &self,
        position: [usize; 3],
        normal_index: usize,
        k: usize,
        texture_index: u16,
        ambient_occlusion: u32,
    ) -> (vertex: MeshVertex)
        requires
            self.inputs_wf(),
            in_bounds(position[0] as int, position[1] as int, position[2] as int),
            normal_index < 6,
            k < 4,
            Some(texture_index) == self.registry().texture_index(
                self.chunk().voxel_at(position[0] as int, position[1] as int, position[2] as int),
                FACE_NORMALS[normal_index as int].0,
            ),
            ambient_occlusion == occlusion(
                self.chunks(),
                self.chunk(),
                position[0] as int,
                position[1] as int,
                position[2] as int,
                normal_index as int,
                k as int,
            ),
        ensures
            vertex == face_vertex(
                self.chunks(),
                self.chunk(),
                self.registry(),
                position[0] as int,
                position[1] as int,
                position[2] as int,
                normal_index as int,
                k as int,
            ),
    {
        proof {
            lemma_normal_is_unit(normal_index as int);
            lemma_corner_is_half_away(normal_index as int, k as int);
        }
        let world_x: i64 = self.chunk.position.x as i64 * 16 + position[0] as i64;
        let world_y: i64 = position[1] as i64;
        let world_z: i64 = self.chunk.position.z as i64 * 16 + position[2] as i64;
        let normal: [i64; 3] = FACE_NORMALS[normal_index].1;
        let corner: [i64; 3] = FACE_VERTICES[normal_index][k];
        MeshVertex {
            pos: IVec3 {
                x: 2 * world_x + corner[0],
                y: 2 * world_y + corner[1],
                z: 2 * world_z + corner[2],
            },
            normal: IVec3 { x: normal[0], y: normal[1], z: normal[2] },
            texture_ambient: pack_texture_ambient(texture_index, ambient_occlusion),
        }
    }

    /// Adds the quad of one face of the voxel at the given position. Without a
    /// texture for the face nothing is added.
    fn add_face(&mut self, position: [usize; 3], normal_index: usize, voxel: Voxel) -> (ok: bool)
        requires
            old(self).wf(),
            in_bounds(position[0] as int, position[1] as int, position[2] as int),
            normal_index < 6,
            voxel == old(self).chunk().voxel_at(
                position[0] as int,
                position[1] as int,
                position[2] as int,
            ),
            old(self).vertices().len() + 4 <= 24 * CHUNK_VOLUME,
        ensures
            final(self).wf(),
            final(self).chunks() == old(self).chunks(),
            final(self).chunk() == old(self).chunk(),
            final(self).registry() == old(self).registry(),
            ok == old(self).registry().texture_index(
                voxel,
                FACE_NORMALS[normal_index as int].0,
            ).is_some(),
            final(self).vertices() == if ok {
                old(self).vertices() + face_quad(
                    old(self).chunks(),
                    old(self).chunk(),
                    old(self).registry(),
                    position[0] as int,
                    position[1] as int,
                    position[2] as int,
                    normal_index as int,
                )
            } else {
                old(self).vertices()
            },
    {
        let ghost chunks = self.chunks();
        let ghost chunk = self.chunk();
        let ghost registry = self.registry();
        let ghost x = position[0] as int;
        let ghost y = position[1] as int;
        let ghost z = position[2] as int;
        let ghost before = self.vertices@;
        let face: Face = FACE_NORMALS[normal_index].0;
        let texture_index: u16 = match get_texture_index(self.registry, &voxel, &face) {
            Some(index) => index,
            None => {
                return false;
            },
        };
        let ao_values: [u32; 4] = self.calculate_ambient_occlusion(position, normal_index);
        let quads: usize = self.vertices.len() / 4;
        let mut k: usize = 0;
        while k < 4
            invariant
                0 <= k <= 4,
                normal_index < 6,
                in_bounds(x, y, z),
                x == position[0],
                y == position[1],
                z == position[2],
                Some(texture_index) == registry.texture_index(
                    chunk.voxel_at(x, y, z),
                    FACE_NORMALS[normal_index as int].0,
                ),
                forall|j: int|
                    0 <= j < 4 ==> #[trigger] ao_values[j] == occlusion(
                        chunks,
                        chunk,
                        x,
                        y,
                        z,
                        normal_index as int,
                        j,
                    ),
                self.inputs_wf(),
                self.chunks() == chunks,
                self.chunk() == chunk,
                self.registry() == registry,
                self.indices@ == quad_indices(quads as nat),
                self.vertices@ == before + Seq::new(
                    k as nat,
                    |j: int| face_vertex(chunks, chunk, registry, x, y, z, normal_index as int, j),
                ),
            decreases 4 - k,
        {
            let vertex = self.corner_vertex(position, normal_index, k, texture_index, ao_values[k]);
            self.vertices.push(vertex);
            k = k + 1;
        }
        push_quad_indices(&mut self.indices, quads);
        assert(self.vertices@ =~= before + face_quad(
            chunks,
            chunk,
            registry,
            x,
            y,
            z,
            normal_index as int,
        ));
        true
    }

    /// Adds the quad of one face of the voxel at the given position, unless a
    /// solid voxel hides the face. Without a texture for a face that is to be
    /// drawn nothing is added.
    fn add_face_if_exposed(&mut self, position: [usize; 3], normal_index: usize, voxel: Voxel) -> (ok:
        bool)
        requires
            old(self).wf(),
            in_bounds(position[0] as int, position[1] as int, position[2] as int),
            normal_index < 6,
            voxel.is_solid(),
            voxel == old(self).chunk().voxel_at(
                position[0] as int,
                position[1] as int,
                position[2] as int,
            ),
            old(self).vertices().len() + 4 <= 24 * CHUNK_VOLUME,
        ensures
            final(self).wf(),
            final(self).chunks() == old(self).chunks(),
            final(self).chunk() == old(self).chunk(),
            final(self).registry() == old(self).registry(),
            ok == face_textured(
                old(self).chunks(),
                old(self).chunk(),
                old(self).registry(),
                position[0] as int,
                position[1] as int,
                position[2] as int,
                normal_index as int,
            ),
            final(self).vertices() == if ok && face_exposed(
                old(self).chunks(),
                old(self).chunk(),
                position[0] as int,
                position[1] as int,
                position[2] as int,
                normal_index as int,
            ) {
                old(self).vertices() + face_quad(
                    old(self).chunks(),
                    old(self).chunk(),
                    old(self).registry(),
                    position[0] as int,
                    position[1] as int,
                    position[2] as int,
                    normal_index as int,
                )
            } else {
                old(self).vertices()
            },
            final(self).vertices().len() <= old(self).vertices().len() + 4,
    {
        proof {
            lemma_normal_is_unit(normal_index as int);
        }
        let normal: [i64; 3] = FACE_NORMALS[normal_index].1;
        if !self.is_solid(position, normal) {
            self.add_face(position, normal_index, voxel)
        } else {
            true
        }
    }

    /// Adds the quads of the voxel at the given position. Stops at the first
    /// face that is to be drawn and has no texture.
    fn add_block(&mut self, position: [usize; 3]) -> (ok: bool)
        requires
            old(self).wf(),
            in_bounds(position[0] as int, position[1] as int, position[2] as int),
            old(self).vertices().len() + 24 <= 24 * CHUNK_VOLUME,
        ensures
            ok == block_meshable(
                old(self).chunks(),
                old(self).chunk(),
                old(self).registry(),
                position[0] as int,
                position[1] as int,
                position[2] as int,
                6,
            ),
            ok ==> {
                &&& final(self).wf()
                &&& final(self).chunks() == old(self).chunks()
                &&& final(self).chunk() == old(self).chunk()
                &&& final(self).registry() == old(self).registry()
                &&& final(self).vertices() == old(self).vertices() + block_faces(
                    old(self).chunks(),
                    old(self).chunk(),
                    old(self).registry(),
                    position[0] as int,
                    position[1] as int,
                    position[2] as int,
                    6,
                )
                &&& final(self).vertices().len() <= old(self).vertices().len() + 24
            },
    {
        let ghost chunks = self.chunks();
        let ghost chunk = self.chunk();
        let ghost registry = self.registry();
        let ghost x = position[0] as int;
        let ghost y = position[1] as int;
        let ghost z = position[2] as int;
        if !self.chunk.is_block_full(position) {
            proof {
                lemma_air_has_no_faces(chunks, chunk, registry, x, y, z, 6);
                assert(self.vertices@ + Seq::<MeshVertex>::empty() =~= self.vertices@);
            }
            return true;
        }
        let voxel: Voxel = self.chunk.get_voxel(position);
        let mut normal_index: usize = 0;
        assert(self.vertices@ + block_faces(chunks, chunk, registry, x, y, z, 0) =~= self.vertices@);
        while normal_index < 6
            invariant
                0 <= normal_index <= 6,
                old(self).chunks() == chunks,
                old(self).chunk() == chunk,
                old(self).registry() == registry,
                self.wf(),
                self.chunks() == chunks,
                self.chunk() == chunk,
                self.registry() == registry,
                block_meshable(chunks, chunk, registry, x, y, z, normal_index as int),
                in_bounds(x, y, z),
                x == position[0],
                y == position[1],
                z == position[2],
                voxel.is_solid(),
                voxel == chunk.voxel_at(x, y, z),
                old(self).vertices().len() + 24 <= 24 * CHUNK_VOLUME,
                self.vertices@ == old(self).vertices() + block_faces(
                    chunks,
                    chunk,
                    registry,
                    x,
                    y,
                    z,
                    normal_index as nat,
                ),
                self.vertices@.len() <= old(self).vertices().len() + 4 * normal_index,
            decreases 6 - normal_index,
        {
            let ghost before = block_faces(chunks, chunk, registry, x, y, z, normal_index as nat);
            if !self.add_face_if_exposed(position, normal_index, voxel) {
                assert(!face_textured(chunks, chunk, registry, x, y, z, normal_index as int));
                return false;
            }
            proof {
                let quad = if face_exposed(chunks, chunk, x, y, z, normal_index as int) {
                    face_quad(chunks, chunk, registry, x, y, z, normal_index as int)
                } else {
                    Seq::empty()
                };
                assert(block_faces(chunks, chunk, registry, x, y, z, (normal_index + 1) as nat)
                    =~= before + quad);
                assert(old(self).vertices() + before + quad =~= old(self).vertices() + (before
                    + quad));
                assert(old(self).vertices() + before + Seq::<MeshVertex>::empty() =~= old(
                    self,
                ).vertices() + before);
            }
            normal_index = normal_index + 1;
        }
        true
    }
}

/// Every normal is a unit vector along one axis.
pub proof fn lemma_normal_is_unit(d: int)
    requires
        0 <= d < 6,
    ensures
        -1 <= FACE_NORMALS[d].1[0] <= 1,
        -1 <= FACE_NORMALS[d].1[1] <= 1,
        -1 <= FACE_NORMALS[d].1[2] <= 1,
        abs(FACE_NORMALS[d].1[0] as int) + abs(FACE_NORMALS[d].1[1] as int) + abs(
            FACE_NORMALS[d].1[2] as int,
        ) == 1,
{
    let c0 = corner(d, 0);
    let c1 = corner(d, 1);
    let c2 = corner(d, 2);
    let c3 = corner(d, 3);
    if d == 0 {
        assert(c0 == (-1int, 1int, -1int) && c1 == (-1int, 1int, 1int));
        assert(c2 == (1int, 1int, 1int) && c3 == (1int, 1int, -1int));
    } else if d == 1 {
        assert(c0 == (-1int, -1int, 1int) && c1 == (-1int, -1int, -1int));
        assert(c2 == (1int, -1int, -1int) && c3 == (1int, -1int, 1int));
    } else if d == 2 {
        assert(c0 == (1int, 1int, 1int) && c1 == (1int, -1int, 1int));
        assert(c2 == (1int, -1int, -1int) && c3 == (1int, 1int, -1int));
    } else if d == 3 {
        assert(c0 == (-1int, 1int, -1int) && c1 == (-1int, -1int, -1int));
        assert(c2 == (-1int, -1int, 1int) && c3 == (-1int, 1int, 1int));
    } else if d == 4 {
        assert(c0 == (-1int, 1int, 1int) && c1 == (-1int, -1int, 1int));
        assert(c2 == (1int, -1int, 1int) && c3 == (1int, 1int, 1int));
    } else {
        assert(c0 == (1int, 1int, -1int) && c1 == (1int, -1int, -1int));
        assert(c2 == (-1int, -1int, -1int) && c3 == (-1int, 1int, -1int));
    }
}

/// Every sample of a ring lies one voxel away at most along each axis.
pub proof fn lemma_ring_is_adjacent(d: int, i: int)
    requires
        0 <= d < 6,
        0 <= i < 8,
    ensures
        adjacent(AMBIENT_NEIGHBOR_OFFSETS[d][i]),
{
    let ring = AMBIENT_NEIGHBOR_OFFSETS[d];
    if d == 0 {
        lemma_ring_entries(ring, i);
    } else if d == 1 {
        lemma_ring_entries(ring, i);
    } else if d == 2 {
        lemma_ring_entries(ring, i);
    } else if d == 3 {
        lemma_ring_entries(ring, i);
    } else if d == 4 {
        lemma_ring_entries(ring, i);
    } else {
        lemma_ring_entries(ring, i);
    }
}

/// A ring whose eight entries are adjacent has an adjacent entry at every place.
proof fn lemma_ring_entries(ring: [[i64; 3]; 8], i: int)
    requires
        0 <= i < 8,
        adjacent(ring[0]),
        adjacent(ring[1]),
        adjacent(ring[2]),
        adjacent(ring[3]),
        adjacent(ring[4]),
        adjacent(ring[5]),
        adjacent(ring[6]),
        adjacent(ring[7]),
    ensures
        adjacent(ring[i]),
{
}

/// Whether an offset leads to one of the 26 voxels around a voxel.
pub open spec fn adjacent(offset: [i64; 3]) -> bool {
    &&& -1 <= offset[0] <= 1
    &&& -1 <= offset[1] <= 1
    &&& -1 <= offset[2] <= 1
    &&& !(offset[0] == 0 && offset[1] == 0 && offset[2] == 0)
}

/// Every corner of a face lies half a voxel from the centre along each axis.
pub proof fn lemma_corner_is_half_away(d: int, k: int)
    requires
        0 <= d < 6,
        0 <= k < 4,
    ensures
        abs(FACE_VERTICES[d][k][0] as int) == 1,
        abs(FACE_VERTICES[d][k][1] as int) == 1,
        abs(FACE_VERTICES[d][k][2] as int) == 1,
{
    let face = FACE_VERTICES[d];
    if d == 0 {
        lemma_corner_entries(face, k);
    } else if d == 1 {
        lemma_corner_entries(face, k);
    } else if d == 2 {
        lemma_corner_entries(face, k);
    } else if d == 3 {
        lemma_corner_entries(face, k);
    } else if d == 4 {
        lemma_corner_entries(face, k);
    } else {
        lemma_corner_entries(face, k);
    }
}

/// Whether a corner lies half a voxel from the centre along each axis.
pub open spec fn half_away(corner: [i64; 3]) -> bool {
    abs(corner[0] as int) == 1 && abs(corner[1] as int) == 1 && abs(corner[2] as int) == 1
}

/// A face whose four corners lie half a voxel away has such a corner at every place.
proof fn lemma_corner_entries(face: [[i64; 3]; 4], k: int)
    requires
        0 <= k < 4,
        half_away(face[0]),
        half_away(face[1]),
        half_away(face[2]),
        half_away(face[3]),
    ensures
        half_away(face[k]),
{
}

/// A voxel that is not solid has no faces.
pub proof fn lemma_air_has_no_faces(
    chunks: Map<ChunkCoordinate, Chunk>,
    chunk: Chunk,
    registry: AssetRegistry,
    x: int,
    y: int,
    z: int,
    n: nat,
)
    requires
        !chunk.solid_at(x, y, z),
    ensures
        block_faces(chunks, chunk, registry, x, y, z, n) == Seq::<MeshVertex>::empty(),
    decreases n,
{
    if n > 0 {
        lemma_air_has_no_faces(chunks, chunk, registry, x, y, z, (n - 1) as nat);
    }
}

/// Adds the indices of one more quad to the indices of `quads` quads.
fn push_quad_indices(indices: &mut Vec<u32>, quads: usize)
    requires
        old(indices)@ == quad_indices(quads as nat),
        quads < 6 * CHUNK_VOLUME,
    ensures
        final(indices)@ == quad_indices((quads + 1) as nat),
{
    let offset: u32 = (4 * quads) as u32;
    let mut j: usize = 0;
    while j < 6
        invariant
            0 <= j <= 6,
            quads < 6 * CHUNK_VOLUME,
            offset == 4 * quads,
            indices@.len() == 6 * quads + j,
            forall|i: int|
                0 <= i < indices@.len() ==> #[trigger] indices@[i] == quad_indices(
                    (quads + 1) as nat,
                )[i],
        decreases 6 - j,
    {
        indices.push(FACE_INDICES[j] + offset);
        j = j + 1;
    }
    assert(indices@ =~= quad_indices((quads + 1) as nat));
}

/// Whether the voxel that lies (dx, dy, dz) away from the local voxel (x, y, z)
/// of `chunk` is solid.
pub open spec fn neighbor_solid(
    chunks: Map<ChunkCoordinate, Chunk>,
    chunk: Chunk,
    x: int,
    y: int,
    z: int,
    dx: int,
    dy: int,
    dz: int,
) -> bool {
    solid_in(chunks, chunk.world_x(x) + dx, y + dy, chunk.world_z(z) + dz)
}

/// Whether none of the 26 voxels around the local voxel (x, y, z) of `chunk` is
/// solid.
pub open spec fn surrounded_by_air(
    chunks: Map<ChunkCoordinate, Chunk>,
    chunk: Chunk,
    x: int,
    y: int,
    z: int,
) -> bool {
    forall|dx: int, dy: int, dz: int|
        -1 <= dx <= 1 && -1 <= dy <= 1 && -1 <= dz <= 1 && !(dx == 0 && dy == 0 && dz == 0)
            ==> !#[trigger] neighbor_solid(chunks, chunk, x, y, z, dx, dy, dz)
}

/// Whether the local voxel (x, y, z) is the only solid voxel of `chunk`.
pub open spec fn only_solid_voxel(chunk: Chunk, x: int, y: int, z: int) -> bool {
    &&& chunk.solid_at(x, y, z)
    &&& forall|i: int, j: int, k: int|
        in_bounds(i, j, k) && !(i == x && j == y && k == z) ==> !(#[trigger] chunk.voxel_at(
            i,
            j,
            k,
        )).is_solid()
}

/// An all-air chunk produces an empty mesh: no vertices and no indices.
pub proof fn lemma_air_chunk_has_empty_mesh(
    chunks: Map<ChunkCoordinate, Chunk>,
    chunk: Chunk,
    registry: AssetRegistry,
)
    requires
        forall|x: int, y: int, z: int|
            in_bounds(x, y, z) ==> !(#[trigger] chunk.voxel_at(x, y, z)).is_solid(),
    ensures
        mesh_vertices(chunks, chunk, registry, CHUNK_VOLUME as nat) == Seq::<MeshVertex>::empty(),
        quad_indices(0) == Seq::<u32>::empty(),
{
    lemma_air_prefix_has_empty_mesh(chunks, chunk, registry, CHUNK_VOLUME as nat);
    assert(quad_indices(0) =~= Seq::<u32>::empty());
}

/// As long as the scan has met air only, the mesh is empty.
proof fn lemma_air_prefix_has_empty_mesh(
    chunks: Map<ChunkCoordinate, Chunk>,
    chunk: Chunk,
    registry: AssetRegistry,
    n: nat,
)
    requires
        n <= CHUNK_VOLUME,
        forall|i: int| 0 <= i < n ==> !(#[trigger] chunk.voxel_at(i % 16, i / 256, (i / 16) % 16)).is_solid(),
    ensures
        mesh_vertices(chunks, chunk, registry, n) == Seq::<MeshVertex>::empty(),
    decreases n,
{
    if n > 0 {
        let i = n - 1;
        lemma_air_prefix_has_empty_mesh(chunks, chunk, registry, i as nat);
        assert(!chunk.voxel_at(i % 16, i / 256, (i / 16) % 16).is_solid());
        lemma_air_has_no_faces(chunks, chunk, registry, i % 16, i / 256, (i / 16) % 16, 6);
        assert(Seq::<MeshVertex>::empty() + Seq::<MeshVertex>::empty() =~= Seq::<
            MeshVertex,
        >::empty());
    }
}

/// Where one voxel alone is solid, the mesh of the chunk is made of the faces of
/// that voxel.
proof fn lemma_only_solid_voxel_mesh(
    chunks: Map<ChunkCoordinate, Chunk>,
    chunk: Chunk,
    registry: AssetRegistry,
    x: int,
    y: int,
    z: int,
    n: nat,
)
    requires
        n <= CHUNK_VOLUME,
        in_bounds(x, y, z),
        only_solid_voxel(chunk, x, y, z),
    ensures
        mesh_vertices(chunks, chunk, registry, n) == if n <= voxel_index(x, y, z) {
            Seq::<MeshVertex>::empty()
        } else {
            block_faces(chunks, chunk, registry, x, y, z, 6)
        },
    decreases n,
{
    if n > 0 {
        let i = n - 1;
        lemma_only_solid_voxel_mesh(chunks, chunk, registry, x, y, z, i as nat);
        let before = mesh_vertices(chunks, chunk, registry, i as nat);
        let block = block_faces(chunks, chunk, registry, i % 16, i / 256, (i / 16) % 16, 6);
        if i == voxel_index(x, y, z) {
            assert(i % 16 == x && i / 256 == y && (i / 16) % 16 == z);
            assert(before + block =~= block);
        } else {
            assert(in_bounds(i % 16, i / 256, (i / 16) % 16));
            assert(!chunk.voxel_at(i % 16, i / 256, (i / 16) % 16).is_solid());
            lemma_air_has_no_faces(chunks, chunk, registry, i % 16, i / 256, (i / 16) % 16, 6);
            assert(before + block =~= before);
        }
    }
}

/// A solid voxel with air on all sides shows all six faces, and no corner of
/// them is darkened.
pub proof fn lemma_isolated_voxel(
    chunks: Map<ChunkCoordinate, Chunk>,
    chunk: Chunk,
    registry: AssetRegistry,
    x: int,
    y: int,
    z: int,
)
    requires
        chunk.solid_at(x, y, z),
        surrounded_by_air(chunks, chunk, x, y, z),
    ensures
        block_faces(chunks, chunk, registry, x, y, z, 6).len() == 24,
        forall|i: int|
            0 <= i < 24 ==> #[trigger] block_faces(chunks, chunk, registry, x, y, z, 6)[i]
                == face_vertex(chunks, chunk, registry, x, y, z, i / 4, i % 4),
        forall|d: int, k: int|
            0 <= d < 6 && 0 <= k < 4 ==> #[trigger] occlusion(chunks, chunk, x, y, z, d, k)
                == UNOCCLUDED,
{
    assert forall|d: int| 0 <= d < 6 implies #[trigger] face_exposed(
        chunks,
        chunk,
        x,
        y,
        z,
        d,
    ) by {
        lemma_normal_is_unit(d);
        let n = FACE_NORMALS[d].1;
        assert(!neighbor_solid(chunks, chunk, x, y, z, n[0] as int, n[1] as int, n[2] as int));
    }
    assert forall|d: int, k: int| 0 <= d < 6 && 0 <= k < 4 implies #[trigger] occlusion(
        chunks,
        chunk,
        x,
        y,
        z,
        d,
        k,
    ) == UNOCCLUDED by {
        lemma_sample_of_air(chunks, chunk, x, y, z, d, 2 * k);
        lemma_sample_of_air(chunks, chunk, x, y, z, d, 2 * k + 1);
        lemma_sample_of_air(chunks, chunk, x, y, z, d, (2 * k + 2) % 8);
    }
    let quad = |d: int| face_quad(chunks, chunk, registry, x, y, z, d);
    let faces = |n: nat| block_faces(chunks, chunk, registry, x, y, z, n);
    assert(faces(0) =~= Seq::empty());
    assert(face_exposed(chunks, chunk, x, y, z, 0));
    assert(faces(1) =~= quad(0));
    assert(face_exposed(chunks, chunk, x, y, z, 1));
    assert(faces(2) =~= faces(1) + quad(1));
    assert(face_exposed(chunks, chunk, x, y, z, 2));
    assert(faces(3) =~= faces(2) + quad(2));
    assert(face_exposed(chunks, chunk, x, y, z, 3));
    assert(faces(4) =~= faces(3) + quad(3));
    assert(face_exposed(chunks, chunk, x, y, z, 4));
    assert(faces(5) =~= faces(4) + quad(4));
    assert(face_exposed(chunks, chunk, x, y, z, 5));
    assert(faces(6) =~= faces(5) + quad(5));
    assert forall|i: int| 0 <= i < 24 implies #[trigger] faces(6)[i] == face_vertex(
        chunks,
        chunk,
        registry,
        x,
        y,
        z,
        i / 4,
        i % 4,
    ) by {
        assert(quad(i / 4)[i % 4] == face_vertex(chunks, chunk, registry, x, y, z, i / 4, i % 4));
    }
}

/// Around a voxel with air on all sides, every sample of every ring is air.
proof fn lemma_sample_of_air(
    chunks: Map<ChunkCoordinate, Chunk>,
    chunk: Chunk,
    x: int,
    y: int,
    z: int,
    d: int,
    i: int,
)
    requires
        surrounded_by_air(chunks, chunk, x, y, z),
        0 <= d < 6,
        0 <= i < 8,
    ensures
        sample_value(chunks, chunk, x, y, z, AMBIENT_NEIGHBOR_OFFSETS[d][i]) == 0,
{
    lemma_ring_is_adjacent(d, i);
    let o = AMBIENT_NEIGHBOR_OFFSETS[d][i];
    assert(!neighbor_solid(chunks, chunk, x, y, z, o[0] as int, o[1] as int, o[2] as int));
}

/// A single solid voxel surrounded entirely by air produces exactly 6 quads: 24
/// vertices, the four corners of each of its faces in turn, and 36 indices. No
/// vertex of them is darkened by ambient occlusion.
pub proof fn lemma_single_voxel_mesh(
    chunks: Map<ChunkCoordinate, Chunk>,
    chunk: Chunk,
    registry: AssetRegistry,
    x: int,
    y: int,
    z: int,
)
    requires
        in_bounds(x, y, z),
        only_solid_voxel(chunk, x, y, z),
        surrounded_by_air(chunks, chunk, x, y, z),
    ensures
        mesh_vertices(chunks, chunk, registry, CHUNK_VOLUME as nat).len() == 24,
        quad_indices(6).len() == 36,
        forall|i: int|
            0 <= i < 24 ==> #[trigger] mesh_vertices(
                chunks,
                chunk,
                registry,
                CHUNK_VOLUME as nat,
            )[i] == face_vertex(chunks, chunk, registry, x, y, z, i / 4, i % 4),
        forall|d: int, k: int|
            0 <= d < 6 && 0 <= k < 4 ==> #[trigger] occlusion(chunks, chunk, x, y, z, d, k)
                == UNOCCLUDED,
{
    lemma_only_solid_voxel_mesh(chunks, chunk, registry, x, y, z, CHUNK_VOLUME as nat);
    lemma_isolated_voxel(chunks, chunk, registry, x, y, z);
}

/// With a texture for every face of every solid material, every chunk can be
/// meshed.
pub proof fn lemma_complete_registry_meshes_all(
    chunks: Map<ChunkCoordinate, Chunk>,
    chunk: Chunk,
    registry: AssetRegistry,
)
    requires
        registry.is_complete(),
    ensures
        meshable(chunks, chunk, registry),
{
    assert forall|i: int| 0 <= i < CHUNK_VOLUME implies #[trigger] voxel_meshable(
        chunks,
        chunk,
        registry,
        i,
    ) by {
        let x = i % 16;
        let y = i / 256;
        let z = (i / 16) % 16;
        assert forall|d: int| 0 <= d < 6 implies #[trigger] face_textured(
            chunks,
            chunk,
            registry,
            x,
            y,
            z,
            d,
        ) by {
            if face_exposed(chunks, chunk, x, y, z, d) {
                assert(registry.texture_index(chunk.voxel_at(x, y, z), FACE_NORMALS[d].0).is_some());
            }
        }
    }
}

/// A chunk can be meshed just when every face that is drawn of every voxel in
/// it has a texture.
pub proof fn lemma_meshable(
    chunks: Map<ChunkCoordinate, Chunk>,
    chunk: Chunk,
    registry: AssetRegistry,
)
    ensures
        meshable(chunks, chunk, registry) <==> forall|x: int, y: int, z: int, d: int|
            in_bounds(x, y, z) && 0 <= d < 6 && #[trigger] face_exposed(chunks, chunk, x, y, z, d)
                ==> registry.texture_index(chunk.voxel_at(x, y, z), FACE_NORMALS[d].0).is_some(),
{
    if meshable(chunks, chunk, registry) {
        assert forall|x: int, y: int, z: int, d: int|
            in_bounds(x, y, z) && 0 <= d < 6 && #[trigger] face_exposed(
                chunks,
                chunk,
                x,
                y,
                z,
                d,
            ) implies registry.texture_index(chunk.voxel_at(x, y, z), FACE_NORMALS[d].0).is_some() by {
            let i = voxel_index(x, y, z);
            assert(i % 16 == x && i / 256 == y && (i / 16) % 16 == z);
            assert(voxel_meshable(chunks, chunk, registry, i));
            assert(face_textured(chunks, chunk, registry, x, y, z, d));
        }
    }
    if forall|x: int, y: int, z: int, d: int|
        in_bounds(x, y, z) && 0 <= d < 6 && #[trigger] face_exposed(chunks, chunk, x, y, z, d)
            ==> registry.texture_index(chunk.voxel_at(x, y, z), FACE_NORMALS[d].0).is_some() {
        assert forall|i: int| 0 <= i < CHUNK_VOLUME implies #[trigger] voxel_meshable(
            chunks,
            chunk,
            registry,
            i,
        ) by {
            let x = i % 16;
            let y = i / 256;
            let z = (i / 16) % 16;
            assert(in_bounds(x, y, z));
            assert forall|d: int| 0 <= d < 6 implies #[trigger] face_textured(
                chunks,
                chunk,
                registry,
                x,
                y,
                z,
                d,
            ) by {
                if face_exposed(chunks, chunk, x, y, z, d) {
                }
            }
        }
    }
}

/// A face that looks into a chunk that is not resident is drawn: what is not
/// there counts as air. (When the neighbor arrives later, the mesh that was
/// built without it stays as it is.)
pub proof fn lemma_absent_neighbor_exposes_face(
    chunks: Map<ChunkCoordinate, Chunk>,
    chunk: Chunk,
    x: int,
    y: int,
    z: int,
    d: int,
)
    requires
        chunk.solid_at(x, y, z),
        0 <= d < 6,
        !chunks.contains_key(
            ChunkCoordinate::spec_containing(
                chunk.world_x(x) + FACE_NORMALS[d].1[0],
                chunk.world_z(z) + FACE_NORMALS[d].1[2],
            ),
        ),
    ensures
        face_exposed(chunks, chunk, x, y, z, d),
{
}

/// Corner `k` of the face `d`, in half voxels from the centre of the voxel.
pub open spec fn corner(d: int, k: int) -> (int, int, int) {
    (FACE_VERTICES[d][k][0] as int, FACE_VERTICES[d][k][1] as int, FACE_VERTICES[d][k][2] as int)
}

/// The cross product of the edges that lead from the point `a` to the points
/// `b` and `c`.
pub open spec fn cross_at(a: (int, int, int), b: (int, int, int), c: (int, int, int)) -> (
    int,
    int,
    int,
) {
    let u = (b.0 - a.0, b.1 - a.1, b.2 - a.2);
    let v = (c.0 - a.0, c.1 - a.1, c.2 - a.2);
    (u.1 * v.2 - u.2 * v.1, u.2 * v.0 - u.0 * v.2, u.0 * v.1 - u.1 * v.0)
}

/// The cross product of the edges that lead from corner `a` of the face `d` to
/// its corners `b` and `c`.
pub open spec fn triangle_normal(d: int, a: int, b: int, c: int) -> (int, int, int) {
    cross_at(corner(d, a), corner(d, b), corner(d, c))
}

/// Both triangles of every face are wound counter-clockwise as seen from
/// outside, in a right-handed world: the cross product of their edges points
/// along the normal of the face.
pub proof fn lemma_faces_wound_counter_clockwise(d: int)
    requires
        0 <= d < 6,
    ensures
        triangle_normal(d, FACE_INDICES[0] as int, FACE_INDICES[1] as int, FACE_INDICES[2] as int)
            == (4 * FACE_NORMALS[d].1[0], 4 * FACE_NORMALS[d].1[1], 4 * FACE_NORMALS[d].1[2]),
        triangle_normal(d, FACE_INDICES[3] as int, FACE_INDICES[4] as int, FACE_INDICES[5] as int)
            == (4 * FACE_NORMALS[d].1[0], 4 * FACE_NORMALS[d].1[1], 4 * FACE_NORMALS[d].1[2]),
{
    let c0 = corner(d, 0);
    let c1 = corner(d, 1);
    let c2 = corner(d, 2);
    let c3 = corner(d, 3);
    if d == 0 {
        assert(c0 == (-1int, 1int, -1int) && c1 == (-1int, 1int, 1int));
        assert(c2 == (1int, 1int, 1int) && c3 == (1int, 1int, -1int));
        assert(cross_at((-1int, 1int, -1int), (-1int, 1int, 1int), (1int, 1int, 1int)) == (0int, 4int, 0int)) by (nonlinear_arith);
        assert(cross_at((1int, 1int, 1int), (1int, 1int, -1int), (-1int, 1int, -1int)) == (0int, 4int, 0int)) by (nonlinear_arith);
    } else if d == 1 {
        assert(c0 == (-1int, -1int, 1int) && c1 == (-1int, -1int, -1int));
        assert(c2 == (1int, -1int, -1int) && c3 == (1int, -1int, 1int));
        assert(cross_at((-1int, -1int, 1int), (-1int, -1int, -1int), (1int, -1int, -1int)) == (0int, -4int, 0int)) by (nonlinear_arith);
        assert(cross_at((1int, -1int, -1int), (1int, -1int, 1int), (-1int, -1int, 1int)) == (0int, -4int, 0int)) by (nonlinear_arith);
    } else if d == 2 {
        assert(c0 == (1int, 1int, 1int) && c1 == (1int, -1int, 1int));
        assert(c2 == (1int, -1int, -1int) && c3 == (1int, 1int, -1int));
        assert(cross_at((1int, 1int, 1int), (1int, -1int, 1int), (1int, -1int, -1int)) == (4int, 0int, 0int)) by (nonlinear_arith);
        assert(cross_at((1int, -1int, -1int), (1int, 1int, -1int), (1int, 1int, 1int)) == (4int, 0int, 0int)) by (nonlinear_arith);
    } else if d == 3 {
        assert(c0 == (-1int, 1int, -1int) && c1 == (-1int, -1int, -1int));
        assert(c2 == (-1int, -1int, 1int) && c3 == (-1int, 1int, 1int));
        assert(cross_at((-1int, 1int, -1int), (-1int, -1int, -1int), (-1int, -1int, 1int)) == (-4int, 0int, 0int)) by (nonlinear_arith);
        assert(cross_at((-1int, -1int, 1int), (-1int, 1int, 1int), (-1int, 1int, -1int)) == (-4int, 0int, 0int)) by (nonlinear_arith);
    } else if d == 4 {
        assert(c0 == (-1int, 1int, 1int) && c1 == (-1int, -1int, 1int));
        assert(c2 == (1int, -1int, 1int) && c3 == (1int, 1int, 1int));
        assert(cross_at((-1int, 1int, 1int), (-1int, -1int, 1int), (1int, -1int, 1int)) == (0int, 0int, 4int)) by (nonlinear_arith);
        assert(cross_at((1int, -1int, 1int), (1int, 1int, 1int), (-1int, 1int, 1int)) == (0int, 0int, 4int)) by (nonlinear_arith);
    } else {
        assert(c0 == (1int, 1int, -1int) && c1 == (1int, -1int, -1int));
        assert(c2 == (-1int, -1int, -1int) && c3 == (-1int, 1int, -1int));
        assert(cross_at((1int, 1int, -1int), (1int, -1int, -1int), (-1int, -1int, -1int)) == (0int, 0int, -4int)) by (nonlinear_arith);
        assert(cross_at((-1int, -1int, -1int), (-1int, 1int, -1int), (1int, 1int, -1int)) == (0int, 0int, -4int)) by (nonlinear_arith);
    }
}

/// Every corner of a face lies on the side of the voxel that the face looks
/// out of.
pub proof fn lemma_corners_lie_on_face(d: int, k: int)
    requires
        0 <= d < 6,
        0 <= k < 4,
    ensures
        FACE_NORMALS[d].1[0] != 0 ==> FACE_VERTICES[d][k][0] == FACE_NORMALS[d].1[0],
        FACE_NORMALS[d].1[1] != 0 ==> FACE_VERTICES[d][k][1] == FACE_NORMALS[d].1[1],
        FACE_NORMALS[d].1[2] != 0 ==> FACE_VERTICES[d][k][2] == FACE_NORMALS[d].1[2],
{
    let face = FACE_VERTICES[d];
    if d == 0 {
        assert(face[0][1] == 1 && face[1][1] == 1 && face[2][1] == 1 && face[3][1] == 1);
    } else if d == 1 {
        assert(face[0][1] == -1 && face[1][1] == -1 && face[2][1] == -1 && face[3][1] == -1);
    } else if d == 2 {
        assert(face[0][0] == 1 && face[1][0] == 1 && face[2][0] == 1 && face[3][0] == 1);
    } else if d == 3 {
        assert(face[0][0] == -1 && face[1][0] == -1 && face[2][0] == -1 && face[3][0] == -1);
    } else if d == 4 {
        assert(face[0][2] == 1 && face[1][2] == 1 && face[2][2] == 1 && face[3][2] == 1);
    } else {
        assert(face[0][2] == -1 && face[1][2] == -1 && face[2][2] == -1 && face[3][2] == -1);
    }
}

/// Whether two tables hold the same chunks at the position of `chunk` and at
/// the eight positions around it.
pub open spec fn same_neighborhood(
    first: Map<ChunkCoordinate, Chunk>,
    second: Map<ChunkCoordinate, Chunk>,
    chunk: Chunk,
) -> bool {
    forall|c: ChunkCoordinate|
        c.spec_distance(chunk.position) <= 1 ==> (#[trigger] first.contains_key(c)
            <==> second.contains_key(c)) && (first.contains_key(c) ==> first[c] == second[c])
}

/// A sample next to a voxel of the chunk reads one of the nine chunks around it.
proof fn lemma_sample_reads_neighborhood(
    first: Map<ChunkCoordinate, Chunk>,
    second: Map<ChunkCoordinate, Chunk>,
    chunk: Chunk,
    x: int,
    y: int,
    z: int,
    offset: [i64; 3],
)
    requires
        same_neighborhood(first, second, chunk),
        in_bounds(x, y, z),
        -1 <= offset[0] <= 1,
        -1 <= offset[2] <= 1,
    ensures
        sample(first, chunk, x, y, z, offset) == sample(second, chunk, x, y, z, offset),
{
    let cx = (chunk.world_x(x) + offset[0]) / 16;
    let cz = (chunk.world_z(z) + offset[2]) / 16;
    assert(chunk.position.x - 1 <= cx <= chunk.position.x + 1);
    assert(chunk.position.z - 1 <= cz <= chunk.position.z + 1);
    if i32::MIN <= cx <= i32::MAX && i32::MIN <= cz <= i32::MAX {
        let c = ChunkCoordinate { x: cx as i32, z: cz as i32 };
        assert(c.spec_distance(chunk.position) <= 1);
        assert(first.contains_key(c) <==> second.contains_key(c));
    }
}

/// The faces of a voxel of the chunk are the same over two tables that hold the
/// same chunks around the chunk.
proof fn lemma_block_reads_neighborhood(
    first: Map<ChunkCoordinate, Chunk>,
    second: Map<ChunkCoordinate, Chunk>,
    chunk: Chunk,
    registry: AssetRegistry,
    x: int,
    y: int,
    z: int,
    n: nat,
)
    requires
        same_neighborhood(first, second, chunk),
        in_bounds(x, y, z),
        n <= 6,
    ensures
        block_faces(first, chunk, registry, x, y, z, n) == block_faces(
            second,
            chunk,
            registry,
            x,
            y,
            z,
            n,
        ),
    decreases n,
{
    if n > 0 {
        let d = n - 1;
        lemma_block_reads_neighborhood(first, second, chunk, registry, x, y, z, d as nat);
        lemma_normal_is_unit(d);
        lemma_sample_reads_neighborhood(first, second, chunk, x, y, z, FACE_NORMALS[d].1);
        assert forall|k: int| 0 <= k < 4 implies face_vertex(first, chunk, registry, x, y, z, d, k)
            == face_vertex(second, chunk, registry, x, y, z, d, k) by {
            lemma_ring_is_adjacent(d, 2 * k);
            lemma_ring_is_adjacent(d, 2 * k + 1);
            lemma_ring_is_adjacent(d, (2 * k + 2) % 8);
            lemma_sample_reads_neighborhood(
                first,
                second,
                chunk,
                x,
                y,
                z,
                AMBIENT_NEIGHBOR_OFFSETS[d][2 * k],
            );
            lemma_sample_reads_neighborhood(
                first,
                second,
                chunk,
                x,
                y,
                z,
                AMBIENT_NEIGHBOR_OFFSETS[d][2 * k + 1],
            );
            lemma_sample_reads_neighborhood(
                first,
                second,
                chunk,
                x,
                y,
                z,
                AMBIENT_NEIGHBOR_OFFSETS[d][(2 * k + 2) % 8],
            );
        }
        assert(face_quad(first, chunk, registry, x, y, z, d) =~= face_quad(
            second,
            chunk,
            registry,
            x,
            y,
            z,
            d,
        ));
    }
}

/// The mesh of a chunk depends on the chunk and on the eight chunks around it
/// alone: two tables that hold the same chunks there give the same mesh.
pub proof fn lemma_mesh_reads_neighborhood(
    first: Map<ChunkCoordinate, Chunk>,
    second: Map<ChunkCoordinate, Chunk>,
    chunk: Chunk,
    registry: AssetRegistry,
    n: nat,
)
    requires
        same_neighborhood(first, second, chunk),
        n <= CHUNK_VOLUME,
    ensures
        mesh_vertices(first, chunk, registry, n) == mesh_vertices(second, chunk, registry, n),
    decreases n,
{
    if n > 0 {
        let i = n - 1;
        lemma_mesh_reads_neighborhood(first, second, chunk, registry, i as nat);
        lemma_block_reads_neighborhood(
            first,
            second,
            chunk,
            registry,
            i % 16,
            i / 256,
            (i / 16) % 16,
            6,
        );
    }
}

} // verus!
