//! The voxel chunk data model: materials, chunk-grid coordinates and the dense
//! voxel grid of one chunk.

use vstd::prelude::*;

verus! {

/// The width of a chunk (xz length).
pub const CHUNK_WIDTH: usize = 16;

/// The height of a chunk (y length).
pub const CHUNK_HEIGHT: usize = 256;

/// The number of voxels in a chunk.
pub const CHUNK_VOLUME: usize = 65536;

/// The highest level a terrain column may reach; the top layer of a chunk stays empty.
pub const MAX_TERRAIN_HEIGHT: usize = 254;

/// A filled cube within a 3d grid.
#[derive(Debug, Clone, Copy, PartialEq, Eq, Hash, Structural)]
pub enum Voxel {
    Air,
    Grass,
    Dirt,
    Stone,
    Snow,
}

/// Why the name of a material, a face or a texture file could not be read.
#[derive(Debug, Clone, PartialEq, Eq)]
pub enum ParseError {
    /// The text names no voxel material.
    UnknownVoxel(String),
    /// The text names no face direction.
    UnknownFace(String),
    /// A match of the file name pattern lacks the material or the face.
    MissingGroup,
    /// The file name pattern is no regular expression.
    InvalidPattern,
}

/// What a `ParseError` says, with the offending text as a sequence of characters.
pub enum ParseErrorView {
    UnknownVoxel(Seq<char>),
    UnknownFace(Seq<char>),
    MissingGroup,
    InvalidPattern,
}

impl View for ParseError {
    type V = ParseErrorView;

    open spec fn view(&self) -> ParseErrorView {
        match self {
            ParseError::UnknownVoxel(name) => ParseErrorView::UnknownVoxel(name@),
            ParseError::UnknownFace(name) => ParseErrorView::UnknownFace(name@),
            ParseError::MissingGroup => ParseErrorView::MissingGroup,
            ParseError::InvalidPattern => ParseErrorView::InvalidPattern,
        }
    }
}

impl Voxel {
    /// Whether the voxel blocks the faces of its neighbors (everything but air does).
    pub open spec fn is_solid(self) -> bool {
        self != Voxel::Air
    }

    /// The material that a name stands for, if any.
    pub open spec fn from_name(name: Seq<char>) -> Option<Voxel> {
        if name == "air"@ {
            Some(Voxel::Air)
        } else if name == "grass"@ {
            Some(Voxel::Grass)
        } else if name == "dirt"@ {
            Some(Voxel::Dirt)
        } else if name == "stone"@ {
            Some(Voxel::Stone)
        } else if name == "snow"@ {
            Some(Voxel::Snow)
        } else {
            None
        }
    }

    /// Reads a material from its lower-case name.
    pub fn parse(s: &str) -> (r: Result<Voxel, ParseError>)
        ensures
            match r {
                Ok(v) => Voxel::from_name(s@) == Some(v),
                Err(e) => Voxel::from_name(s@).is_none() && e@ == ParseErrorView::UnknownVoxel(s@),
            },
    {
        let name = s.to_owned();
        if name == "air".to_owned() {
            Ok(Voxel::Air)
        } else if name == "grass".to_owned() {
            Ok(Voxel::Grass)
        } else if name == "dirt".to_owned() {
            Ok(Voxel::Dirt)
        } else if name == "stone".to_owned() {
            Ok(Voxel::Stone)
        } else if name == "snow".to_owned() {
            Ok(Voxel::Snow)
        } else {
            Err(ParseError::UnknownVoxel(name))
        }
    }
}

impl Default for Voxel {
    fn default() -> (v: Voxel)
        ensures
            v == Voxel::Air,
    {
        Voxel::Air
    }
}

impl core::str::FromStr for Voxel {
    type Err = ParseError;

    /// Reads a material from its lower-case name, as `Voxel::parse` does.
    fn from_str(s: &str) -> (r: Result<Voxel, ParseError>)
        ensures
            match r {
                Ok(v) => Voxel::from_name(s@) == Some(v),
                Err(e) => Voxel::from_name(s@).is_none() && e@ == ParseErrorView::UnknownVoxel(s@),
            },
    {
        Voxel::parse(s)
    }
}

/// The position of a chunk within the world, in chunk units along the x and z axes.
#[derive(Debug, Clone, Copy, PartialEq, Eq, Hash, Structural)]
pub struct ChunkCoordinate {
    pub x: i32,
    pub z: i32,
}

/// The absolute value of an integer.
pub open spec fn abs(v: int) -> int {
    if v < 0 {
        -v
    } else {
        v
    }
}

impl ChunkCoordinate {
    /// The number under which tables index this coordinate; distinct coordinates
    /// have distinct keys.
    pub open spec fn spec_key(self) -> u64 {
        ((self.x - i32::MIN) * 0x1_0000_0000 + (self.z - i32::MIN)) as u64
    }

    /// The coordinate that a key stands for.
    pub open spec fn of_key(key: u64) -> ChunkCoordinate {
        ChunkCoordinate {
            x: (key / 0x1_0000_0000 + i32::MIN) as i32,
            z: (key % 0x1_0000_0000 + i32::MIN) as i32,
        }
    }

    /// Chebyshev distance: the larger of the distances along x and along z.
    pub open spec fn spec_distance(self, other: ChunkCoordinate) -> int {
        let dx = abs(self.x - other.x);
        let dz = abs(self.z - other.z);
        if dx >= dz {
            dx
        } else {
            dz
        }
    }

    /// The chunk that holds the world column (x, z): floor division by the chunk width.
    pub open spec fn spec_containing(world_x: int, world_z: int) -> ChunkCoordinate {
        ChunkCoordinate { x: (world_x / 16) as i32, z: (world_z / 16) as i32 }
    }

    /// The coordinate of the chunk at (x, z) of the chunk grid.
    pub fn new(x: i32, z: i32) -> (c: ChunkCoordinate)
        ensures
            c == (ChunkCoordinate { x, z }),
    {
        ChunkCoordinate { x, z }
    }

    /// The number under which tables index this coordinate.
    pub fn key(self) -> (k: u64)
        ensures
            k == self.spec_key(),
            ChunkCoordinate::of_key(k) == self,
    {
        let hi: u64 = (self.x as i64 - i32::MIN as i64) as u64;
        let lo: u64 = (self.z as i64 - i32::MIN as i64) as u64;
        hi * 0x1_0000_0000u64 + lo
    }

    /// The Chebyshev distance between two chunks.
    pub fn distance(self, other: ChunkCoordinate) -> (d: usize)
        ensures
            d == self.spec_distance(other),
    {
        let dx: i64 = self.x as i64 - other.x as i64;
        let dz: i64 = self.z as i64 - other.z as i64;
        let ax: i64 = if dx < 0 {
            -dx
        } else {
            dx
        };
        let az: i64 = if dz < 0 {
            -dz
        } else {
            dz
        };
        if ax >= az {
            ax as usize
        } else {
            az as usize
        }
    }

    /// The chunk that holds the world column (x, z).
    pub fn containing(world_x: i32, world_z: i32) -> (c: ChunkCoordinate)
        ensures
            c == ChunkCoordinate::spec_containing(world_x as int, world_z as int),
            -0x800_0000 <= c.x < 0x800_0000,
            -0x800_0000 <= c.z < 0x800_0000,
    {
        let x: i32 = floor_div_width(world_x as i64) as i32;
        let z: i32 = floor_div_width(world_z as i64) as i32;
        ChunkCoordinate { x, z }
    }

    /// Distinct coordinates have distinct keys, and every key is the key of its coordinate.
    pub proof fn lemma_key_injective(a: ChunkCoordinate, b: ChunkCoordinate)
        ensures
            a.spec_key() == b.spec_key() <==> a == b,
            ChunkCoordinate::of_key(a.spec_key()) == a,
    {
    }

    /// Every key belongs to exactly one coordinate.
    pub proof fn lemma_key_surjective(key: u64)
        ensures
            ChunkCoordinate::of_key(key).spec_key() == key,
    {
    }
}

/// The coordinates that a set of keys stands for.
pub open spec fn coordinates(keys: Set<u64>) -> Set<ChunkCoordinate> {
    Set::new(|c: ChunkCoordinate| keys.contains(c.spec_key()))
}

/// Adding the key of a coordinate adds the coordinate.
pub proof fn lemma_coordinates_insert(keys: Set<u64>, c: ChunkCoordinate)
    ensures
        coordinates(keys.insert(c.spec_key())) == coordinates(keys).insert(c),
{
    assert forall|d: ChunkCoordinate|
        coordinates(keys.insert(c.spec_key())).contains(d) == coordinates(keys).insert(c).contains(
            d,
        ) by {
        ChunkCoordinate::lemma_key_injective(d, c);
    }
    assert(coordinates(keys.insert(c.spec_key())) =~= coordinates(keys).insert(c));
}

/// Removing the key of a coordinate removes the coordinate.
pub proof fn lemma_coordinates_remove(keys: Set<u64>, c: ChunkCoordinate)
    ensures
        coordinates(keys.remove(c.spec_key())) == coordinates(keys).remove(c),
{
    assert forall|d: ChunkCoordinate|
        coordinates(keys.remove(c.spec_key())).contains(d) == coordinates(keys).remove(c).contains(
            d,
        ) by {
        ChunkCoordinate::lemma_key_injective(d, c);
    }
    assert(coordinates(keys.remove(c.spec_key())) =~= coordinates(keys).remove(c));
}

/// A finite set of keys stands for as many coordinates.
pub proof fn lemma_coordinates_len(keys: Set<u64>)
    requires
        keys.finite(),
    ensures
        coordinates(keys).finite(),
        coordinates(keys).len() == keys.len(),
{
    let of_key = |k: u64| ChunkCoordinate::of_key(k);
    assert(keys.map(of_key) =~= coordinates(keys)) by {
        assert forall|c: ChunkCoordinate| keys.map(of_key).contains(c) == coordinates(
            keys,
        ).contains(c) by {
            if coordinates(keys).contains(c) {
                ChunkCoordinate::lemma_key_injective(c, c);
                assert(keys.contains(c.spec_key()) && of_key(c.spec_key()) == c);
            }
            if keys.map(of_key).contains(c) {
                let k = choose|k: u64| keys.contains(k) && of_key(k) == c;
                ChunkCoordinate::lemma_key_surjective(k);
            }
        }
    }
    assert(vstd::relations::injective_on(of_key, keys)) by {
        assert forall|a: u64, b: u64|
            keys.contains(a) && keys.contains(b) && #[trigger] of_key(a) == #[trigger] of_key(
                b,
            ) implies a == b by {
            ChunkCoordinate::lemma_key_surjective(a);
            ChunkCoordinate::lemma_key_surjective(b);
        }
    }
    vstd::set_lib::lemma_map_size(keys, coordinates(keys), of_key);
}

/// Floor division of a world coordinate by the chunk width.
pub fn floor_div_width(v: i64) -> (q: i64)
    ensures
        q == v / 16,
        16 * q <= v < 16 * q + 16,
{
    v.checked_div_euclid(16).unwrap()
}

/// The place of the voxel (x, y, z) in a chunk's grid, which is laid out by
/// height, then depth, then width.
pub open spec fn voxel_index(x: int, y: int, z: int) -> int {
    (y * 16 + z) * 16 + x
}

/// Whether (x, y, z) lies within the confines of a chunk.
pub open spec fn in_bounds(x: int, y: int, z: int) -> bool {
    0 <= x < 16 && 0 <= y < 256 && 0 <= z < 16
}

/// The level up to which a column is filled, given its raw sample.
pub open spec fn column_height(sample: int) -> int {
    if sample > 254 {
        254
    } else {
        sample
    }
}

/// The layered-material rule: the material at level `y` of a column filled up to `height`.
pub open spec fn terrain_voxel(y: int, height: int) -> Voxel {
    if 200 <= y <= 256 {
        Voxel::Snow
    } else if y >= 150 {
        Voxel::Stone
    } else if y == height {
        Voxel::Grass
    } else {
        Voxel::Dirt
    }
}

/// Whether `after` is `before` with its columns filled from `heights`: the column
/// (x, z) holds the layered materials up to the height of its sample, which
/// stands at `z * 16 + x`, and the voxels of `before` above that.
pub open spec fn filled(before: Chunk, after: Chunk, heights: Seq<usize>) -> bool {
    forall|x: int, y: int, z: int|
        #![trigger after.voxel_at(x, y, z)]
        in_bounds(x, y, z) ==> after.voxel_at(x, y, z) == if y <= column_height(
            heights[z * 16 + x] as int,
        ) {
            terrain_voxel(y, column_height(heights[z * 16 + x] as int))
        } else {
            before.voxel_at(x, y, z)
        }
}

/// A collection of voxels grouped within an axis-aligned box, the unit of
/// streaming and meshing.
#[derive(Debug, Clone)]
pub struct Chunk {
    /// The voxels, stored contiguously by height, then depth, then width.
    pub voxels: Vec<Voxel>,
    /// The position of the chunk within the world along the xz axis.
    pub position: ChunkCoordinate,
}

impl Chunk {
    /// The grid is complete.
    pub open spec fn wf(&self) -> bool {
        self.voxels@.len() == CHUNK_VOLUME
    }

    /// The voxel at the local position (x, y, z).
    pub open spec fn voxel_at(&self, x: int, y: int, z: int) -> Voxel {
        self.voxels@[voxel_index(x, y, z)]
    }

    /// Whether the local position holds a voxel other than air; false outside the grid.
    pub open spec fn solid_at(&self, x: int, y: int, z: int) -> bool {
        in_bounds(x, y, z) && self.voxel_at(x, y, z).is_solid()
    }

    /// The world x coordinate of the local column x.
    pub open spec fn world_x(&self, x: int) -> int {
        self.position.x * 16 + x
    }

    /// The world z coordinate of the local row z.
    pub open spec fn world_z(&self, z: int) -> int {
        self.position.z * 16 + z
    }

    /// Creates a new chunk at the given position, filled with air.
    pub fn new(position: ChunkCoordinate) -> (chunk: Chunk)
        ensures
            chunk.wf(),
            chunk.position == position,
            chunk.voxels@ == Seq::new(CHUNK_VOLUME as nat, |i: int| Voxel::Air),
    {
        let voxels: Vec<Voxel> = vec![Voxel::Air; CHUNK_VOLUME];
        Chunk { voxels, position }
    }

    /// Whether the grid is complete.
    pub fn is_complete(&self) -> (b: bool)
        ensures
            b == self.wf(),
    {
        self.voxels.len() == CHUNK_VOLUME
    }

    /// Returns whether the provided position is in the confines of the chunk,
    /// not accounting for the chunk's position.
    pub fn in_local_bounds(block_pos: [usize; 3]) -> (b: bool)
        ensures
            b == in_bounds(block_pos[0] as int, block_pos[1] as int, block_pos[2] as int),
    {
        block_pos[0] < CHUNK_WIDTH && block_pos[2] < CHUNK_WIDTH && block_pos[1] < CHUNK_HEIGHT
    }

    /// Returns a list of the neighbor chunks' positions, the chunk's own among them.
    pub fn neighbors(&self) -> (list: Vec<ChunkCoordinate>)
        requires
            i32::MIN < self.position.x < i32::MAX,
            i32::MIN < self.position.z < i32::MAX,
        ensures
            list@ == Seq::new(
                9,
                |i: int|
                    ChunkCoordinate {
                        x: (self.position.x + i / 3 - 1) as i32,
                        z: (self.position.z + i % 3 - 1) as i32,
                    },
            ),
    {
        let mut list: Vec<ChunkCoordinate> = Vec::new();
        let mut i: i32 = 0;
        while i < 9
            invariant
                0 <= i <= 9,
                i32::MIN < self.position.x < i32::MAX,
                i32::MIN < self.position.z < i32::MAX,
                list@ == Seq::new(
                    i as nat,
                    |k: int|
                        ChunkCoordinate {
                            x: (self.position.x + k / 3 - 1) as i32,
                            z: (self.position.z + k % 3 - 1) as i32,
                        },
                ),
            decreases 9 - i,
        {
            list.push(
                ChunkCoordinate {
                    x: self.position.x + (i / 3 - 1),
                    z: self.position.z + (i % 3 - 1),
                },
            );
            i = i + 1;
        }
        list
    }

    /// Returns the voxel at the given position.
    pub fn get_voxel(&self, block_pos: [usize; 3]) -> (v: Voxel)
        requires
            self.wf(),
            in_bounds(block_pos[0] as int, block_pos[1] as int, block_pos[2] as int),
        ensures
            v == self.voxel_at(block_pos[0] as int, block_pos[1] as int, block_pos[2] as int),
    {
        self.voxels[(block_pos[1] * CHUNK_WIDTH + block_pos[2]) * CHUNK_WIDTH + block_pos[0]]
    }

    /// Replaces the voxel at the given position.
    pub fn set_voxel(&mut self, block_pos: [usize; 3], voxel: Voxel)
        requires
            old(self).wf(),
            in_bounds(block_pos[0] as int, block_pos[1] as int, block_pos[2] as int),
        ensures
            final(self).wf(),
            final(self).position == old(self).position,
            final(self).voxels@ == old(self).voxels@.update(
                voxel_index(block_pos[0] as int, block_pos[1] as int, block_pos[2] as int),
                voxel,
            ),
    {
        let index: usize = (block_pos[1] * CHUNK_WIDTH + block_pos[2]) * CHUNK_WIDTH
            + block_pos[0];
        self.voxels.set(index, voxel);
    }

    /// Returns if the voxel at the given position is non empty (not air).
    /// A position outside the grid holds nothing.
    pub fn is_block_full(&self, block_pos: [usize; 3]) -> (b: bool)
        requires
            self.wf(),
        ensures
            b == self.solid_at(block_pos[0] as int, block_pos[1] as int, block_pos[2] as int),
    {
        if Chunk::in_local_bounds(block_pos) {
            self.get_voxel(block_pos) != Voxel::Air
        } else {
            false
        }
    }

    /// Returns the world position of a voxel with some delta direction.
    /// This position may not be within the bounds of the chunk.
    pub fn offset_local_in_direction(
        &self,
        local_position: [usize; 3],
        direction: [i64; 3],
    ) -> (world: [i64; 3])
        requires
            i64::MIN <= self.world_x(local_position[0] as int) + direction[0] <= i64::MAX,
            i64::MIN <= local_position[1] + direction[1] <= i64::MAX,
            i64::MIN <= self.world_z(local_position[2] as int) + direction[2] <= i64::MAX,
        ensures
            world[0] == self.world_x(local_position[0] as int) + direction[0],
            world[1] == local_position[1] + direction[1],
            world[2] == self.world_z(local_position[2] as int) + direction[2],
    {
        let chunk_x_offset: i128 = self.position.x as i128 * 16;
        let chunk_z_offset: i128 = self.position.z as i128 * 16;
        let x: i128 = local_position[0] as i128 + direction[0] as i128 + chunk_x_offset;
        let y: i128 = local_position[1] as i128 + direction[1] as i128;
        let z: i128 = local_position[2] as i128 + direction[2] as i128 + chunk_z_offset;
        [x as i64, y as i64, z as i64]
    }

    /// Returns the local position of a voxel, given a world position. The local
    /// position may lie beyond the chunk's far sides; there is none where the world
    /// position lies before the chunk's origin.
    pub fn get_local_position(&self, world: [i64; 3]) -> (local: Option<[usize; 3]>)
        ensures
            match local {
                Some(p) => {
                    &&& p[0] == world[0] - self.world_x(0)
                    &&& p[1] == world[1]
                    &&& p[2] == world[2] - self.world_z(0)
                },
                None => {
                    ||| !(0 <= world[0] - self.world_x(0) <= usize::MAX)
                    ||| !(0 <= world[1] <= usize::MAX)
                    ||| !(0 <= world[2] - self.world_z(0) <= usize::MAX)
                },
            },
    {
        let x: i128 = world[0] as i128 - self.position.x as i128 * 16;
        let y: i128 = world[1] as i128;
        let z: i128 = world[2] as i128 - self.position.z as i128 * 16;
        if x < 0 || y < 0 || z < 0 || x > usize::MAX as i128 || y > usize::MAX as i128 || z
            > usize::MAX as i128 {
            None
        } else {
            Some([x as usize, y as usize, z as usize])
        }
    }

    /// Fills the chunk in using the terrain sampler, which is asked once for
    /// every column, with the world position of the column along x and z. Each
    /// column is then filled as `fill_columns` fills it from the sample.
    pub fn fill_perlin<F: Fn(i64, i64) -> usize>(&mut self, noise: F)
        requires
            old(self).wf(),
            forall|k: int|
                0 <= k < 256 ==> call_requires(
                    noise,
                    (
                        #[trigger] old(self).world_x(k % 16) as i64,
                        old(self).world_z(k / 16) as i64,
                    ),
                ),
        ensures
            final(self).wf(),
            final(self).position == old(self).position,
            exists|heights: Seq<usize>|
                {
                    &&& heights.len() == 256
                    &&& forall|k: int|
                        0 <= k < 256 ==> call_ensures(
                            noise,
                            (old(self).world_x(k % 16) as i64, old(self).world_z(k / 16) as i64),
                            #[trigger] heights[k],
                        )
                    &&& filled(*old(self), *final(self), heights)
                },
    {
        let mut heights: Vec<usize> = Vec::new();
        let mut k: usize = 0;
        while k < 256
            invariant
                0 <= k <= 256,
                heights@.len() == k,
                *self == *old(self),
                forall|j: int|
                    0 <= j < 256 ==> call_requires(
                        noise,
                        (
                            #[trigger] old(self).world_x(j % 16) as i64,
                            old(self).world_z(j / 16) as i64,
                        ),
                    ),
                forall|j: int|
                    0 <= j < k ==> call_ensures(
                        noise,
                        (old(self).world_x(j % 16) as i64, old(self).world_z(j / 16) as i64),
                        #[trigger] heights@[j],
                    ),
            decreases 256 - k,
        {
            let world_x: i64 = self.position.x as i64 * 16 + (k % 16) as i64;
            let world_z: i64 = self.position.z as i64 * 16 + (k / 16) as i64;
            assert(world_x == old(self).world_x(k as int % 16) as i64);
            let sample: usize = noise(world_x, world_z);
            heights.push(sample);
            k = k + 1;
        }
        self.fill_columns(&heights);
        assert(filled(*old(self), *self, heights@));
    }

    /// Fills the chunk in from one height sample per column. The sample of the
    /// column (x, z) stands at `z * CHUNK_WIDTH + x`. Each column is filled from the
    /// bottom up to its sample, capped below the top layer; what lies above keeps
    /// its voxels.
    pub fn fill_columns(&mut self, heights: &Vec<usize>)
        requires
            old(self).wf(),
            heights.len() == CHUNK_WIDTH * CHUNK_WIDTH,
        ensures
            final(self).wf(),
            final(self).position == old(self).position,
            filled(*old(self), *final(self), heights@),
    {
        let ghost before = self.voxels@;
        let mut i: usize = 0;
        while i < CHUNK_VOLUME
            invariant
                0 <= i <= CHUNK_VOLUME,
                heights.len() == 256,
                before.len() == CHUNK_VOLUME,
                self.voxels@.len() == CHUNK_VOLUME,
                self.position == old(self).position,
                forall|j: int|
                    #![trigger self.voxels@[j]]
                    0 <= j < i ==> self.voxels@[j] == if j / 256 <= column_height(
                        heights[j % 256] as int,
                    ) {
                        terrain_voxel(j / 256, column_height(heights[j % 256] as int))
                    } else {
                        before[j]
                    },
                forall|j: int| #![trigger self.voxels@[j]] i <= j < CHUNK_VOLUME ==> self.voxels@[j] == before[j],
            decreases CHUNK_VOLUME - i,
        {
            let y: usize = i / 256;
            let sample: usize = heights[i % 256];
            let height: usize = if sample > MAX_TERRAIN_HEIGHT {
                MAX_TERRAIN_HEIGHT
            } else {
                sample
            };
            if y <= height {
                let voxel: Voxel = if y >= 200 {
                    Voxel::Snow
                } else if y >= 150 {
                    Voxel::Stone
                } else if y == height {
                    Voxel::Grass
                } else {
                    Voxel::Dirt
                };
                self.voxels.set(i, voxel);
            }
            i = i + 1;
        }
        assert forall|x: int, y: int, z: int|
            #![trigger self.voxel_at(x, y, z)]
            in_bounds(x, y, z) implies self.voxel_at(x, y, z) == if y <= column_height(
            heights@[z * 16 + x] as int,
        ) {
            terrain_voxel(y, column_height(heights@[z * 16 + x] as int))
        } else {
            old(self).voxel_at(x, y, z)
        } by {
            let j = voxel_index(x, y, z);
            assert(j / 256 == y);
            assert(j % 256 == z * 16 + x);
            assert(self.voxels@[j] == self.voxel_at(x, y, z));
        }
    }
}

/// Filling is a function of the samples: two complete chunks that were filled
/// from the same chunk with the same samples hold the same voxels.
pub proof fn lemma_fill_is_deterministic(
    before: Chunk,
    first: Chunk,
    second: Chunk,
    heights: Seq<usize>,
)
    requires
        first.wf(),
        second.wf(),
        filled(before, first, heights),
        filled(before, second, heights),
    ensures
        first.voxels@ == second.voxels@,
{
    assert forall|i: int| 0 <= i < CHUNK_VOLUME implies first.voxels@[i] == second.voxels@[i] by {
        let x = i % 16;
        let y = i / 256;
        let z = (i / 16) % 16;
        assert(voxel_index(x, y, z) == i);
        assert(first.voxel_at(x, y, z) == second.voxel_at(x, y, z));
    }
    assert(first.voxels@ =~= second.voxels@);
}

} // verus!
