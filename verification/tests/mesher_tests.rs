use voxel_stream::asset_loader::{AssetRegistry, Face};
use voxel_stream::chunk::{Chunk, ChunkCoordinate, Voxel};
use voxel_stream::chunk_store::ChunkStore;
use voxel_stream::mesher::{
    ao_value, ChunkMesher, AMBIENT_NEIGHBOR_OFFSETS, FACE_INDICES, FACE_NORMALS, FACE_VERTICES,
};
use voxel_stream::model::{pack_texture_ambient, IVec3, MeshVertex};

fn registry() -> AssetRegistry {
    let mut registry = AssetRegistry::new();
    for voxel in [Voxel::Grass, Voxel::Dirt, Voxel::Stone, Voxel::Snow] {
        for face in [Face::Up, Face::Down, Face::Side] {
            registry.register(voxel, face);
        }
    }
    registry
}

fn store_of(chunks: Vec<Chunk>) -> ChunkStore {
    let mut store = ChunkStore::new();
    for chunk in chunks {
        store.insert(chunk);
    }
    store
}

fn mesh(store: &ChunkStore, position: ChunkCoordinate) -> (Vec<MeshVertex>, Vec<u32>) {
    let registry = registry();
    assert!(store.contains(position));
    assert!(registry.check_complete());
    ChunkMesher::new(store, &registry, position).build()
}

fn occlusion_of(vertex: &MeshVertex) -> u32 {
    vertex.texture_ambient & 0xffff
}

fn layer_of(vertex: &MeshVertex) -> u32 {
    vertex.texture_ambient >> 16
}

#[test]
fn all_air_chunk_has_an_empty_mesh() {
    let origin = ChunkCoordinate::new(0, 0);
    let store = store_of(vec![Chunk::new(origin)]);
    let (vertices, indices) = mesh(&store, origin);
    assert_eq!(vertices.len(), 0);
    assert_eq!(indices.len(), 0);
}

#[test]
fn single_voxel_has_six_unoccluded_quads() {
    let origin = ChunkCoordinate::new(0, 0);
    let mut chunk = Chunk::new(origin);
    chunk.set_voxel([8, 8, 8], Voxel::Stone);
    let store = store_of(vec![chunk]);
    let (vertices, indices) = mesh(&store, origin);
    assert_eq!(vertices.len(), 24);
    assert_eq!(indices.len(), 36);
    for vertex in &vertices {
        assert_eq!(occlusion_of(vertex), 3);
    }
}

#[test]
fn single_voxel_corners_lie_half_a_voxel_from_its_centre() {
    let origin = ChunkCoordinate::new(0, 0);
    let mut chunk = Chunk::new(origin);
    chunk.set_voxel([8, 8, 8], Voxel::Stone);
    let store = store_of(vec![chunk]);
    let (vertices, _) = mesh(&store, origin);
    assert_eq!(vertices.len(), 24);
    let centre = [8.0f32, 8.0, 8.0];
    for (face, quad) in vertices.chunks(4).enumerate() {
        let normal = FACE_NORMALS[face].1;
        let mut corners = Vec::new();
        for vertex in quad {
            let pos = [
                vertex.pos.x as f32 / 2.0,
                vertex.pos.y as f32 / 2.0,
                vertex.pos.z as f32 / 2.0,
            ];
            assert_eq!(
                [vertex.normal.x, vertex.normal.y, vertex.normal.z],
                normal
            );
            for axis in 0..3 {
                let offset = pos[axis] - centre[axis];
                if normal[axis] != 0 {
                    // the face lies half a voxel out along its normal
                    assert_eq!(offset, normal[axis] as f32 * 0.5);
                } else {
                    assert!(offset == 0.5 || offset == -0.5);
                }
            }
            corners.push(pos);
        }
        // the four corners of a face are four different points
        for a in 0..4 {
            for b in (a + 1)..4 {
                assert_ne!(corners[a], corners[b]);
            }
        }
    }
}

#[test]
fn single_voxel_up_face_in_half_voxels() {
    let position = ChunkCoordinate::new(2, -1);
    let mut chunk = Chunk::new(position);
    chunk.set_voxel([1, 5, 3], Voxel::Grass);
    let store = store_of(vec![chunk]);
    let (vertices, _) = mesh(&store, position);
    // world position (33, 5, -13), in half voxels (66, 10, -26)
    let up = IVec3 { x: 0, y: 1, z: 0 };
    let texture_ambient = (0 << 16) | 3;
    assert_eq!(
        vertices[0],
        MeshVertex { pos: IVec3 { x: 65, y: 11, z: -27 }, normal: up, texture_ambient }
    );
    assert_eq!(
        vertices[1],
        MeshVertex { pos: IVec3 { x: 65, y: 11, z: -25 }, normal: up, texture_ambient }
    );
    assert_eq!(
        vertices[2],
        MeshVertex { pos: IVec3 { x: 67, y: 11, z: -25 }, normal: up, texture_ambient }
    );
    assert_eq!(
        vertices[3],
        MeshVertex { pos: IVec3 { x: 67, y: 11, z: -27 }, normal: up, texture_ambient }
    );
}

#[test]
fn indices_are_two_triangles_per_quad() {
    let origin = ChunkCoordinate::new(0, 0);
    let mut chunk = Chunk::new(origin);
    chunk.set_voxel([8, 8, 8], Voxel::Stone);
    let store = store_of(vec![chunk]);
    let (_, indices) = mesh(&store, origin);
    assert_eq!(FACE_INDICES, [0, 1, 2, 2, 3, 0]);
    assert_eq!(&indices[0..6], &[0, 1, 2, 2, 3, 0]);
    assert_eq!(&indices[6..12], &[4, 5, 6, 6, 7, 4]);
    assert_eq!(&indices[30..36], &[20, 21, 22, 22, 23, 20]);
    for (quad, six) in indices.chunks(6).enumerate() {
        for (j, index) in six.iter().enumerate() {
            assert_eq!(*index, 4 * quad as u32 + FACE_INDICES[j]);
        }
    }
}

#[test]
fn texture_layer_follows_material_and_face() {
    let origin = ChunkCoordinate::new(0, 0);
    let mut chunk = Chunk::new(origin);
    chunk.set_voxel([8, 8, 8], Voxel::Stone);
    let store = store_of(vec![chunk]);
    let (vertices, _) = mesh(&store, origin);
    // stone is the third material registered: up 6, down 7, side 8
    let layers: Vec<u32> = vertices.chunks(4).map(|quad| layer_of(&quad[0])).collect();
    assert_eq!(layers, vec![6, 7, 8, 8, 8, 8]);
    for quad in vertices.chunks(4) {
        for vertex in quad {
            assert_eq!(layer_of(vertex), layer_of(&quad[0]));
        }
    }
    assert_eq!(vertices[0].texture_ambient, (6 << 16) | 3);
    assert_eq!(vertices[4].texture_ambient, (7 << 16) | 3);
}

#[test]
fn packing_puts_the_layer_above_the_occlusion() {
    assert_eq!(pack_texture_ambient(0, 0), 0);
    assert_eq!(pack_texture_ambient(1, 0), 65536);
    assert_eq!(pack_texture_ambient(5, 3), (5 << 16) | 3);
    assert_eq!(pack_texture_ambient(65535, 2), 0xffff_0002);
}

#[test]
fn ambient_occlusion_levels() {
    assert_eq!(ao_value(0, 0, 0), 3);
    assert_eq!(ao_value(1, 0, 0), 2);
    assert_eq!(ao_value(0, 1, 0), 2);
    assert_eq!(ao_value(0, 0, 1), 2);
    assert_eq!(ao_value(1, 1, 0), 1);
    assert_eq!(ao_value(0, 1, 1), 1);
}

#[test]
fn two_solid_edges_are_fully_dark() {
    assert_eq!(ao_value(1, 0, 1), 0);
    assert_eq!(ao_value(1, 1, 1), 0);
}

#[test]
fn one_edge_neighbor_darkens_two_corners() {
    let origin = ChunkCoordinate::new(0, 0);
    let mut chunk = Chunk::new(origin);
    chunk.set_voxel([8, 8, 8], Voxel::Stone);
    // on the back edge of the up face of the voxel
    chunk.set_voxel([8, 9, 7], Voxel::Stone);
    let store = store_of(vec![chunk]);
    let (vertices, _) = mesh(&store, origin);
    let up: Vec<u32> = vertices[0..4].iter().map(occlusion_of).collect();
    assert_eq!(up, vec![2, 3, 3, 2]);
}

#[test]
fn two_edge_neighbors_darken_the_corner_between_them() {
    let origin = ChunkCoordinate::new(0, 0);
    let mut chunk = Chunk::new(origin);
    chunk.set_voxel([8, 8, 8], Voxel::Stone);
    chunk.set_voxel([8, 9, 7], Voxel::Stone);
    chunk.set_voxel([7, 9, 8], Voxel::Stone);
    let store = store_of(vec![chunk]);
    let (vertices, _) = mesh(&store, origin);
    let up: Vec<u32> = vertices[0..4].iter().map(occlusion_of).collect();
    assert_eq!(up, vec![0, 2, 3, 2]);
}

#[test]
fn corner_neighbor_darkens_one_corner() {
    let origin = ChunkCoordinate::new(0, 0);
    let mut chunk = Chunk::new(origin);
    chunk.set_voxel([8, 8, 8], Voxel::Stone);
    // on the back left corner of the up face of the voxel
    chunk.set_voxel([7, 9, 7], Voxel::Stone);
    let store = store_of(vec![chunk]);
    let (vertices, _) = mesh(&store, origin);
    let up: Vec<u32> = vertices[0..4].iter().map(occlusion_of).collect();
    assert_eq!(up, vec![2, 3, 3, 3]);
}

#[test]
fn hidden_faces_are_not_drawn() {
    let origin = ChunkCoordinate::new(0, 0);
    let mut chunk = Chunk::new(origin);
    chunk.set_voxel([8, 8, 8], Voxel::Stone);
    chunk.set_voxel([9, 8, 8], Voxel::Stone);
    let store = store_of(vec![chunk]);
    let (vertices, indices) = mesh(&store, origin);
    // two voxels side by side show five faces each
    assert_eq!(vertices.len(), 40);
    assert_eq!(indices.len(), 60);
    // no face of the first looks right, no face of the second looks left
    let normals: Vec<[i64; 3]> = vertices
        .chunks(4)
        .map(|quad| [quad[0].normal.x, quad[0].normal.y, quad[0].normal.z])
        .collect();
    assert_eq!(
        normals,
        vec![
            [0, 1, 0],
            [0, -1, 0],
            [-1, 0, 0],
            [0, 0, 1],
            [0, 0, -1],
            [0, 1, 0],
            [0, -1, 0],
            [1, 0, 0],
            [0, 0, 1],
            [0, 0, -1],
        ]
    );
}

#[test]
fn voxels_are_scanned_by_height_then_depth_then_width() {
    let origin = ChunkCoordinate::new(0, 0);
    let mut chunk = Chunk::new(origin);
    chunk.set_voxel([5, 0, 0], Voxel::Stone);
    chunk.set_voxel([0, 0, 5], Voxel::Stone);
    chunk.set_voxel([0, 5, 0], Voxel::Stone);
    chunk.set_voxel([0, 0, 0], Voxel::Stone);
    let store = store_of(vec![chunk]);
    let (vertices, _) = mesh(&store, origin);
    assert_eq!(vertices.len(), 4 * 24);
    let centres: Vec<[i64; 3]> = vertices
        .chunks(24)
        .map(|block| [block[0].pos.x + 1, block[0].pos.y - 1, block[0].pos.z + 1])
        .collect();
    assert_eq!(centres, vec![[0, 0, 0], [10, 0, 0], [0, 0, 10], [0, 10, 0]]);
}

#[test]
fn absent_neighbor_leaves_a_boundary_face() {
    let origin = ChunkCoordinate::new(0, 0);
    let mut target = Chunk::new(origin);
    target.set_voxel([15, 8, 8], Voxel::Stone);
    let mut neighbor = Chunk::new(ChunkCoordinate::new(1, 0));
    neighbor.set_voxel([0, 8, 8], Voxel::Stone);

    // the neighbor has not been generated yet: the face towards it is drawn
    let alone = store_of(vec![target.clone()]);
    let (vertices, indices) = mesh(&alone, origin);
    assert_eq!(vertices.len(), 24);
    assert_eq!(indices.len(), 36);
    assert_eq!(vertices[8].normal, IVec3 { x: 1, y: 0, z: 0 });
    assert_eq!(vertices[8].pos.x, 31);

    // with the neighbor resident the face is hidden
    let both = store_of(vec![target, neighbor]);
    let (vertices, indices) = mesh(&both, origin);
    assert_eq!(vertices.len(), 20);
    assert_eq!(indices.len(), 30);
    for vertex in &vertices {
        assert_ne!(vertex.normal, IVec3 { x: 1, y: 0, z: 0 });
    }
}

#[test]
fn neighbor_chunk_voxels_darken_corners() {
    let origin = ChunkCoordinate::new(0, 0);
    let mut target = Chunk::new(origin);
    target.set_voxel([0, 8, 0], Voxel::Stone);
    // diagonally across the corner of the chunk, one level up
    let mut diagonal = Chunk::new(ChunkCoordinate::new(-1, -1));
    diagonal.set_voxel([15, 9, 15], Voxel::Stone);
    let store = store_of(vec![target, diagonal]);
    let (vertices, _) = mesh(&store, origin);
    assert_eq!(vertices.len(), 24);
    let up: Vec<u32> = vertices[0..4].iter().map(occlusion_of).collect();
    assert_eq!(up, vec![2, 3, 3, 3]);
}

#[test]
fn world_solidity_looks_into_the_right_chunk() {
    let mut a = Chunk::new(ChunkCoordinate::new(-1, 0));
    a.set_voxel([15, 3, 2], Voxel::Dirt);
    let mut b = Chunk::new(ChunkCoordinate::new(0, 0));
    b.set_voxel([0, 255, 0], Voxel::Dirt);
    let store = store_of(vec![a, b]);
    assert_eq!(store.len(), 2);
    assert!(store.is_solid([-1, 3, 2]));
    assert!(!store.is_solid([-1, 3, 3]));
    assert!(!store.is_solid([0, 3, 2]));
    assert!(store.is_solid([0, 255, 0]));
    // outside the height of the world, and where no chunk is resident
    assert!(!store.is_solid([0, 256, 0]));
    assert!(!store.is_solid([0, -1, 0]));
    assert!(!store.is_solid([16, 255, 0]));
    assert!(!store.is_solid([i64::MAX, 0, i64::MIN]));
}

#[test]
fn store_replaces_a_chunk_at_the_same_position() {
    let position = ChunkCoordinate::new(4, 4);
    let mut store = ChunkStore::new();
    assert!(!store.contains(position));
    assert!(store.get(position).is_none());
    store.insert(Chunk::new(position));
    let mut second = Chunk::new(position);
    second.set_voxel([1, 1, 1], Voxel::Snow);
    store.insert(second);
    assert_eq!(store.len(), 1);
    assert!(store.contains(position));
    assert_eq!(store.get(position).unwrap().get_voxel([1, 1, 1]), Voxel::Snow);
}

#[test]
fn tables_are_consistent() {
    for d in 0..6 {
        let normal = FACE_NORMALS[d].1;
        assert_eq!(normal.iter().map(|n| n.abs()).sum::<i64>(), 1);
        for corner in FACE_VERTICES[d] {
            for axis in 0..3 {
                assert_eq!(corner[axis].abs(), 1);
                if normal[axis] != 0 {
                    assert_eq!(corner[axis], normal[axis]);
                }
            }
        }
        for offset in AMBIENT_NEIGHBOR_OFFSETS[d] {
            // every sample lies in the layer that the face looks into
            for axis in 0..3 {
                assert!(offset[axis].abs() <= 1);
                if normal[axis] != 0 {
                    assert_eq!(offset[axis], normal[axis]);
                }
            }
        }
    }
    assert_eq!(FACE_NORMALS[0].0, Face::Up);
    assert_eq!(FACE_NORMALS[1].0, Face::Down);
    for d in 2..6 {
        assert_eq!(FACE_NORMALS[d].0, Face::Side);
    }
}

#[test]
fn filled_chunk_meshes_its_surface() {
    let origin = ChunkCoordinate::new(0, 0);
    let mut chunk = Chunk::new(origin);
    chunk.fill_columns(&vec![0usize; 256]);
    let store = store_of(vec![chunk]);
    let (vertices, indices) = mesh(&store, origin);
    // a slab one voxel high: 256 faces up, 256 down, 4 * 16 around
    assert_eq!(vertices.len(), 4 * (256 + 256 + 64));
    assert_eq!(indices.len(), 6 * (256 + 256 + 64));
}
