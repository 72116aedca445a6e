use std::str::FromStr;

use voxel_stream::asset_loader::{get_texture_index, AssetRegistry, Face};
use voxel_stream::chunk::{
    floor_div_width, Chunk, ChunkCoordinate, ParseError, Voxel, CHUNK_HEIGHT, CHUNK_VOLUME,
    CHUNK_WIDTH,
};

#[test]
fn new_chunk_is_air() {
    let chunk = Chunk::new(ChunkCoordinate::new(3, -4));
    assert_eq!(chunk.position, ChunkCoordinate { x: 3, z: -4 });
    assert_eq!(chunk.voxels.len(), CHUNK_VOLUME);
    assert!(chunk.is_complete());
    assert!(chunk.voxels.iter().all(|v| *v == Voxel::Air));
    assert!(!chunk.is_block_full([0, 0, 0]));
    assert!(!chunk.is_block_full([15, 255, 15]));
    assert_eq!(chunk.get_voxel([3, 4, 5]), Voxel::Air);
}

#[test]
fn chunk_dimensions() {
    assert_eq!(CHUNK_WIDTH, 16);
    assert_eq!(CHUNK_HEIGHT, 256);
    assert_eq!(CHUNK_VOLUME, CHUNK_WIDTH * CHUNK_WIDTH * CHUNK_HEIGHT);
}

#[test]
fn default_voxel_is_air() {
    assert_eq!(Voxel::default(), Voxel::Air);
}

#[test]
fn local_bounds() {
    assert!(Chunk::in_local_bounds([0, 0, 0]));
    assert!(Chunk::in_local_bounds([15, 255, 15]));
    assert!(!Chunk::in_local_bounds([16, 0, 0]));
    assert!(!Chunk::in_local_bounds([0, 256, 0]));
    assert!(!Chunk::in_local_bounds([0, 0, 16]));
    assert!(!Chunk::in_local_bounds([usize::MAX, 0, 0]));
}

#[test]
fn grid_is_laid_out_by_height_depth_width() {
    let mut chunk = Chunk::new(ChunkCoordinate::new(0, 0));
    chunk.set_voxel([1, 2, 3], Voxel::Stone);
    assert_eq!(chunk.voxels[(2 * 16 + 3) * 16 + 1], Voxel::Stone);
    assert_eq!(chunk.get_voxel([1, 2, 3]), Voxel::Stone);
    assert_eq!(chunk.get_voxel([3, 2, 1]), Voxel::Air);
    assert_eq!(
        chunk.voxels.iter().filter(|v| **v != Voxel::Air).count(),
        1
    );
}

#[test]
fn solidity_is_false_outside_the_grid() {
    let mut chunk = Chunk::new(ChunkCoordinate::new(0, 0));
    chunk.set_voxel([15, 255, 15], Voxel::Dirt);
    assert!(chunk.is_block_full([15, 255, 15]));
    assert!(!chunk.is_block_full([16, 255, 15]));
    assert!(!chunk.is_block_full([15, 256, 15]));
    assert!(!chunk.is_block_full([15, 255, 16]));
    assert!(!chunk.is_block_full([usize::MAX, usize::MAX, usize::MAX]));
}

#[test]
fn neighbors_in_order() {
    let chunk = Chunk::new(ChunkCoordinate::new(10, -5));
    let expected = vec![
        ChunkCoordinate::new(9, -6),
        ChunkCoordinate::new(9, -5),
        ChunkCoordinate::new(9, -4),
        ChunkCoordinate::new(10, -6),
        ChunkCoordinate::new(10, -5),
        ChunkCoordinate::new(10, -4),
        ChunkCoordinate::new(11, -6),
        ChunkCoordinate::new(11, -5),
        ChunkCoordinate::new(11, -4),
    ];
    assert_eq!(chunk.neighbors(), expected);
}

#[test]
fn offset_in_direction() {
    let chunk = Chunk::new(ChunkCoordinate::new(2, -3));
    assert_eq!(
        chunk.offset_local_in_direction([0, 0, 0], [0, 0, 0]),
        [32, 0, -48]
    );
    assert_eq!(
        chunk.offset_local_in_direction([15, 255, 15], [1, 1, 1]),
        [48, 256, -32]
    );
    assert_eq!(
        chunk.offset_local_in_direction([0, 0, 0], [-1, -1, -1]),
        [31, -1, -49]
    );
}

#[test]
fn local_position_of_world_position() {
    let chunk = Chunk::new(ChunkCoordinate::new(2, -3));
    assert_eq!(chunk.get_local_position([32, 0, -48]), Some([0, 0, 0]));
    assert_eq!(chunk.get_local_position([47, 255, -33]), Some([15, 255, 15]));
    // beyond the far sides there is a local position, outside the bounds
    assert_eq!(chunk.get_local_position([48, 300, -32]), Some([16, 300, 16]));
    // below the world and before the origin of the chunk there is none
    assert_eq!(chunk.get_local_position([32, -1, -48]), None);
    assert_eq!(chunk.get_local_position([31, 0, -48]), None);
    assert_eq!(chunk.get_local_position([32, 0, -49]), None);
}

#[test]
fn offset_and_local_position_round_trip() {
    let chunk = Chunk::new(ChunkCoordinate::new(-7, 9));
    let world = chunk.offset_local_in_direction([3, 100, 12], [0, 0, 0]);
    assert_eq!(world, [-109, 100, 156]);
    assert_eq!(chunk.get_local_position(world), Some([3, 100, 12]));
}

#[test]
fn fill_layers_of_a_low_column() {
    let mut chunk = Chunk::new(ChunkCoordinate::new(0, 0));
    let mut heights = vec![0usize; 256];
    heights[5 * 16 + 3] = 10;
    chunk.fill_columns(&heights);
    // the column (3, 5) is filled up to 10: grass on top of dirt
    for y in 0..10 {
        assert_eq!(chunk.get_voxel([3, y, 5]), Voxel::Dirt);
    }
    assert_eq!(chunk.get_voxel([3, 10, 5]), Voxel::Grass);
    assert_eq!(chunk.get_voxel([3, 11, 5]), Voxel::Air);
    // every other column is filled up to 0: one voxel of grass
    assert_eq!(chunk.get_voxel([0, 0, 0]), Voxel::Grass);
    assert_eq!(chunk.get_voxel([0, 1, 0]), Voxel::Air);
    assert_eq!(chunk.get_voxel([5, 0, 3]), Voxel::Grass);
    assert_eq!(chunk.get_voxel([5, 1, 3]), Voxel::Air);
}

#[test]
fn fill_layers_of_high_columns() {
    let mut chunk = Chunk::new(ChunkCoordinate::new(0, 0));
    let mut heights = vec![0usize; 256];
    heights[0] = 170;
    heights[1] = 220;
    heights[2] = 5000;
    heights[3] = 149;
    heights[4] = 150;
    chunk.fill_columns(&heights);
    // up to 170: dirt, then stone from 150, no grass on top
    assert_eq!(chunk.get_voxel([0, 149, 0]), Voxel::Dirt);
    assert_eq!(chunk.get_voxel([0, 150, 0]), Voxel::Stone);
    assert_eq!(chunk.get_voxel([0, 170, 0]), Voxel::Stone);
    assert_eq!(chunk.get_voxel([0, 171, 0]), Voxel::Air);
    // up to 220: snow from 200
    assert_eq!(chunk.get_voxel([1, 199, 0]), Voxel::Stone);
    assert_eq!(chunk.get_voxel([1, 200, 0]), Voxel::Snow);
    assert_eq!(chunk.get_voxel([1, 220, 0]), Voxel::Snow);
    assert_eq!(chunk.get_voxel([1, 221, 0]), Voxel::Air);
    // a sample beyond the top is capped below the top layer
    assert_eq!(chunk.get_voxel([2, 254, 0]), Voxel::Snow);
    assert_eq!(chunk.get_voxel([2, 255, 0]), Voxel::Air);
    // the edges of the dirt band
    assert_eq!(chunk.get_voxel([3, 148, 0]), Voxel::Dirt);
    assert_eq!(chunk.get_voxel([3, 149, 0]), Voxel::Grass);
    assert_eq!(chunk.get_voxel([3, 150, 0]), Voxel::Air);
    assert_eq!(chunk.get_voxel([4, 149, 0]), Voxel::Dirt);
    assert_eq!(chunk.get_voxel([4, 150, 0]), Voxel::Stone);
}

#[test]
fn fill_keeps_what_lies_above_a_column() {
    let mut chunk = Chunk::new(ChunkCoordinate::new(0, 0));
    chunk.set_voxel([7, 100, 7], Voxel::Stone);
    chunk.set_voxel([7, 3, 7], Voxel::Stone);
    let mut heights = vec![0usize; 256];
    heights[7 * 16 + 7] = 50;
    chunk.fill_columns(&heights);
    assert_eq!(chunk.get_voxel([7, 100, 7]), Voxel::Stone);
    assert_eq!(chunk.get_voxel([7, 3, 7]), Voxel::Dirt);
    assert_eq!(chunk.get_voxel([7, 50, 7]), Voxel::Grass);
    assert_eq!(chunk.get_voxel([7, 51, 7]), Voxel::Air);
}

#[test]
fn fill_is_the_same_for_the_same_samples() {
    let heights: Vec<usize> = (0..256).map(|i| (i * 7) % 300).collect();
    let mut a = Chunk::new(ChunkCoordinate::new(1, 1));
    let mut b = Chunk::new(ChunkCoordinate::new(1, 1));
    a.fill_columns(&heights);
    b.fill_columns(&heights);
    assert_eq!(a.voxels, b.voxels);
}

#[test]
fn voxel_names() {
    assert_eq!(Voxel::parse("air"), Ok(Voxel::Air));
    assert_eq!(Voxel::parse("grass"), Ok(Voxel::Grass));
    assert_eq!(Voxel::parse("dirt"), Ok(Voxel::Dirt));
    assert_eq!(Voxel::parse("stone"), Ok(Voxel::Stone));
    assert_eq!(Voxel::parse("snow"), Ok(Voxel::Snow));
    assert_eq!(Voxel::from_str("stone"), Ok(Voxel::Stone));
    assert_eq!("snow".parse::<Voxel>(), Ok(Voxel::Snow));
}

#[test]
fn unknown_voxel_name() {
    assert_eq!(
        Voxel::parse("lava"),
        Err(ParseError::UnknownVoxel("lava".to_string()))
    );
    assert_eq!(
        Voxel::parse("Grass"),
        Err(ParseError::UnknownVoxel("Grass".to_string()))
    );
    assert_eq!(
        Voxel::parse(""),
        Err(ParseError::UnknownVoxel(String::new()))
    );
    assert_eq!(
        Voxel::from_str("up"),
        Err(ParseError::UnknownVoxel("up".to_string()))
    );
}

#[test]
fn face_names() {
    assert_eq!(Face::parse("up"), Ok(Face::Up));
    assert_eq!(Face::parse("down"), Ok(Face::Down));
    assert_eq!(Face::parse("side"), Ok(Face::Side));
    assert_eq!(Face::from_str("side"), Ok(Face::Side));
}

#[test]
fn unknown_face_name() {
    assert_eq!(
        Face::parse("left"),
        Err(ParseError::UnknownFace("left".to_string()))
    );
    assert_eq!(
        Face::from_str("grass"),
        Err(ParseError::UnknownFace("grass".to_string()))
    );
}

#[test]
fn chunk_of_world_column_is_floor_division() {
    assert_eq!(ChunkCoordinate::containing(0, 0), ChunkCoordinate::new(0, 0));
    assert_eq!(ChunkCoordinate::containing(15, 16), ChunkCoordinate::new(0, 1));
    assert_eq!(ChunkCoordinate::containing(-1, -16), ChunkCoordinate::new(-1, -1));
    assert_eq!(ChunkCoordinate::containing(-17, 31), ChunkCoordinate::new(-2, 1));
    assert_eq!(
        ChunkCoordinate::containing(i32::MIN, i32::MAX),
        ChunkCoordinate::new(-134217728, 134217727)
    );
    assert_eq!(floor_div_width(-1), -1);
    assert_eq!(floor_div_width(-16), -1);
    assert_eq!(floor_div_width(-17), -2);
    assert_eq!(floor_div_width(47), 2);
}

#[test]
fn chebyshev_distance() {
    let origin = ChunkCoordinate::new(0, 0);
    assert_eq!(origin.distance(origin), 0);
    assert_eq!(ChunkCoordinate::new(3, -1).distance(origin), 3);
    assert_eq!(ChunkCoordinate::new(-2, 5).distance(origin), 5);
    assert_eq!(ChunkCoordinate::new(-2, 5).distance(ChunkCoordinate::new(4, 4)), 6);
    assert_eq!(
        ChunkCoordinate::new(i32::MIN, 0).distance(ChunkCoordinate::new(i32::MAX, 0)),
        4294967295
    );
}

#[test]
fn keys_tell_coordinates_apart() {
    let mut keys = std::collections::HashSet::new();
    for x in -3..=3 {
        for z in -3..=3 {
            assert!(keys.insert(ChunkCoordinate::new(x, z).key()));
        }
    }
    assert_eq!(ChunkCoordinate::new(i32::MIN, i32::MIN).key(), 0);
    assert_eq!(ChunkCoordinate::new(i32::MAX, i32::MAX).key(), u64::MAX);
    assert_eq!(ChunkCoordinate::new(i32::MIN, i32::MIN + 1).key(), 1);
    assert_eq!(ChunkCoordinate::new(i32::MIN + 1, i32::MIN).key(), 1 << 32);
}

#[test]
fn texture_index_is_the_upload_order() {
    let mut registry = AssetRegistry::new();
    assert_eq!(registry.register(Voxel::Grass, Face::Up), Some(0));
    assert_eq!(registry.register(Voxel::Grass, Face::Side), Some(1));
    assert_eq!(registry.register(Voxel::Dirt, Face::Up), Some(2));
    assert_eq!(
        get_texture_index(&registry, &Voxel::Grass, &Face::Up),
        Some(0)
    );
    assert_eq!(
        get_texture_index(&registry, &Voxel::Grass, &Face::Side),
        Some(1)
    );
    assert_eq!(
        get_texture_index(&registry, &Voxel::Dirt, &Face::Up),
        Some(2)
    );
    assert_eq!(get_texture_index(&registry, &Voxel::Dirt, &Face::Down), None);
    assert_eq!(get_texture_index(&registry, &Voxel::Air, &Face::Up), None);
}

#[test]
fn texture_index_is_the_first_of_two() {
    let mut registry = AssetRegistry::new();
    registry.register(Voxel::Stone, Face::Side);
    registry.register(Voxel::Snow, Face::Up);
    registry.register(Voxel::Stone, Face::Side);
    assert_eq!(
        get_texture_index(&registry, &Voxel::Stone, &Face::Side),
        Some(0)
    );
    assert_eq!(registry.textures.len(), 3);
}

#[test]
fn empty_registry_has_no_texture() {
    let registry = AssetRegistry::new();
    assert_eq!(get_texture_index(&registry, &Voxel::Grass, &Face::Up), None);
    assert!(!registry.check_complete());
}

#[test]
fn full_registry_takes_no_more() {
    let mut registry = AssetRegistry::new();
    for i in 0..65536u32 {
        assert_eq!(registry.register(Voxel::Dirt, Face::Down), Some(i as u16));
    }
    assert_eq!(registry.register(Voxel::Dirt, Face::Down), None);
    assert_eq!(registry.textures.len(), 65536);
}

#[test]
fn complete_registry() {
    let mut registry = AssetRegistry::new();
    for voxel in [Voxel::Grass, Voxel::Dirt, Voxel::Stone] {
        for face in [Face::Up, Face::Down, Face::Side] {
            registry.register(voxel, face);
        }
    }
    assert!(registry.covers(Voxel::Grass));
    assert!(!registry.covers(Voxel::Snow));
    assert!(!registry.check_complete());
    registry.register(Voxel::Snow, Face::Up);
    registry.register(Voxel::Snow, Face::Down);
    assert!(!registry.check_complete());
    registry.register(Voxel::Snow, Face::Side);
    assert!(registry.check_complete());
}

#[test]
fn sampler_is_asked_for_every_column_at_its_world_position() {
    let mut chunk = Chunk::new(ChunkCoordinate::new(-2, 3));
    let asked = std::cell::RefCell::new(Vec::new());
    chunk.fill_perlin(|x, z| {
        asked.borrow_mut().push((x, z));
        ((x + 32) + (z - 48)) as usize
    });
    let asked = asked.into_inner();
    assert_eq!(asked.len(), 256);
    let mut expected = Vec::new();
    for z in 48..64 {
        for x in -32..-16 {
            expected.push((x, z));
        }
    }
    assert_eq!(asked, expected);
    // the column (x, z) is filled up to x + z
    assert_eq!(chunk.get_voxel([0, 0, 0]), Voxel::Grass);
    assert_eq!(chunk.get_voxel([0, 1, 0]), Voxel::Air);
    assert_eq!(chunk.get_voxel([5, 12, 7]), Voxel::Grass);
    assert_eq!(chunk.get_voxel([5, 11, 7]), Voxel::Dirt);
    assert_eq!(chunk.get_voxel([5, 13, 7]), Voxel::Air);
    assert_eq!(chunk.get_voxel([15, 30, 15]), Voxel::Grass);
    assert_eq!(chunk.get_voxel([15, 31, 15]), Voxel::Air);
}

#[test]
fn sampler_fill_is_column_fill() {
    let mut sampled = Chunk::new(ChunkCoordinate::new(1, 1));
    sampled.fill_perlin(|x, z| ((x * 31 + z * 17) % 300) as usize);
    let mut heights = Vec::new();
    for z in 16..32i64 {
        for x in 16..32i64 {
            heights.push(((x * 31 + z * 17) % 300) as usize);
        }
    }
    let mut filled = Chunk::new(ChunkCoordinate::new(1, 1));
    filled.fill_columns(&heights);
    assert_eq!(sampled.voxels, filled.voxels);
}
