//! The table of resident chunks, indexed by chunk coordinate.

use crate::chunk::coordinates;
use crate::chunk::floor_div_width;
use crate::chunk::lemma_coordinates_len;
use crate::chunk::Chunk;
use crate::chunk::ChunkCoordinate;
use std::collections::HashMap;
use vstd::prelude::*;

verus! {

broadcast use vstd::std_specs::hash::group_hash_axioms;

/// What holds of every table of resident chunks: it is finite, and each chunk in
/// it is complete and stands under its own position.
pub open spec fn valid_chunks(chunks: Map<ChunkCoordinate, Chunk>) -> bool {
    &&& chunks.dom().finite()
    &&& forall|c: ChunkCoordinate| #[trigger]
        chunks.contains_key(c) ==> chunks[c].wf() && chunks[c].position == c
}

/// Whether the voxel at a world position is solid. A voxel of a chunk that is
/// not resident, or outside the height of the world, counts as air.
pub open spec fn solid_in(chunks: Map<ChunkCoordinate, Chunk>, x: int, y: int, z: int) -> bool {
    let cx = x / 16;
    let cz = z / 16;
    let c = ChunkCoordinate { x: cx as i32, z: cz as i32 };
    &&& i32::MIN <= cx <= i32::MAX
    &&& i32::MIN <= cz <= i32::MAX
    &&& chunks.contains_key(c)
    &&& chunks[c].solid_at(x % 16, y, z % 16)
}

/// The chunks whose voxel data is resident.
pub struct ChunkStore {
    chunks: HashMap<u64, Chunk>,
}

impl View for ChunkStore {
    type V = Map<ChunkCoordinate, Chunk>;

    closed spec fn view(&self) -> Map<ChunkCoordinate, Chunk> {
        Map::new(
            |c: ChunkCoordinate| self.chunks@.contains_key(c.spec_key()),
            |c: ChunkCoordinate| self.chunks@[c.spec_key()],
        )
    }
}

impl ChunkStore {
    /// Each chunk is complete and is filed under the key of its position.
    pub closed spec fn wf(&self) -> bool {
        forall|k: u64| #[trigger]
            self.chunks@.contains_key(k) ==> self.chunks@[k].wf()
                && self.chunks@[k].position.spec_key() == k
    }

    /// A well-formed store holds a valid table.
    pub proof fn lemma_valid(&self)
        requires
            self.wf(),
        ensures
            valid_chunks(self@),
    {
        assert forall|c: ChunkCoordinate| #[trigger] self@.contains_key(c) implies self@[c].wf()
            && self@[c].position == c by {
            ChunkCoordinate::lemma_key_injective(self@[c].position, c);
        }
        self.lemma_len();
    }

    /// The store holds as many chunks as its table has keys.
    proof fn lemma_len(&self)
        ensures
            self@.dom().finite(),
            self@.len() == self.chunks@.len(),
    {
        lemma_coordinates_len(self.chunks@.dom());
        assert(self@.dom() =~= coordinates(self.chunks@.dom()));
    }

    /// Creates a store without chunks.
    pub fn new() -> (store: ChunkStore)
        ensures
            store.wf(),
            store@ == Map::<ChunkCoordinate, Chunk>::empty(),
    {
        let store = ChunkStore { chunks: HashMap::new() };
        assert(store@ =~= Map::<ChunkCoordinate, Chunk>::empty());
        store
    }

    /// Files a chunk under its position, in place of any chunk that stood there.
    pub fn insert(&mut self, chunk: Chunk)
        requires
            old(self).wf(),
            chunk.wf(),
        ensures
            final(self).wf(),
            final(self)@ == old(self)@.insert(chunk.position, chunk),
    {
        let key: u64 = chunk.position.key();
        let ghost position = chunk.position;
        self.chunks.insert(key, chunk);
        proof {
            assert forall|c: ChunkCoordinate|
                c.spec_key() == position.spec_key() implies c == position by {
                ChunkCoordinate::lemma_key_injective(c, position);
            }
            assert(self@ =~= old(self)@.insert(position, chunk));
        }
    }

    /// Whether the chunk at the given position is resident.
    pub fn contains(&self, position: ChunkCoordinate) -> (b: bool)
        ensures
            b == self@.contains_key(position),
    {
        let key: u64 = position.key();
        self.chunks.contains_key(&key)
    }

    /// The chunk at the given position, if it is resident.
    pub fn get(&self, position: ChunkCoordinate) -> (chunk: Option<&Chunk>)
        ensures
            match chunk {
                Some(c) => self@.contains_key(position) && *c == self@[position],
                None => !self@.contains_key(position),
            },
    {
        let key: u64 = position.key();
        self.chunks.get(&key)
    }

    /// The number of resident chunks.
    pub fn len(&self) -> (n: usize)
        ensures
            n == self@.len(),
    {
        proof {
            self.lemma_len();
        }
        self.chunks.len()
    }

    /// Returns whether the given voxel position (in world space) is solid.
    pub fn is_solid(&self, world: [i64; 3]) -> (b: bool)
        requires
            self.wf(),
        ensures
            b == solid_in(self@, world[0] as int, world[1] as int, world[2] as int),
    {
        proof {
            self.lemma_valid();
        }
        let cx: i64 = floor_div_width(world[0]);
        let cz: i64 = floor_div_width(world[2]);
        if cx < i32::MIN as i64 || cx > i32::MAX as i64 || cz < i32::MIN as i64 || cz
            > i32::MAX as i64 {
            return false;
        }
        let position = ChunkCoordinate { x: cx as i32, z: cz as i32 };
        match self.get(position) {
            // the neighbor chunk hasn't been loaded yet.
            None => false,
            Some(chunk) => match chunk.get_local_position(world) {
                Some(local) => chunk.is_block_full(local),
                None => false,
            },
        }
    }
}

} // verus!
