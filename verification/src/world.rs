//! The chunks that are resident: a sparse store from chunk index to chunk.

use crate::chunk::ChunkData;
use crate::coords::{ChunkIndex, VoxelLocalIndex, VoxelPos, chunk_of, local_of, pos_to_voxel};
use std::collections::HashMap;
use vstd::prelude::*;
use vstd::relations::injective_on;
use vstd::set_lib::lemma_map_size;
use vstd::std_specs::hash::group_hash_axioms;
use vstd::std_specs::iter::IteratorSpec;

verus! {

broadcast use group_hash_axioms;

/// The key that the chunk at `index` is stored under: the three coordinates,
/// moved into the non-negative range, side by side in 32 bits each.
pub open spec fn chunk_key(index: ChunkIndex) -> u128 {
    ((index.x + 0x8000_0000) * 0x1_0000_0000_0000_0000 + (index.y + 0x8000_0000) * 0x1_0000_0000
        + (index.z + 0x8000_0000)) as u128
}

/// Different chunks have different keys.
pub proof fn lemma_chunk_key_injective(a: ChunkIndex, b: ChunkIndex)
    ensures
        chunk_key(a) == chunk_key(b) <==> a == b,
{
    if chunk_key(a) == chunk_key(b) {
        let xa: int = a.x + 0x8000_0000;
        let ya: int = a.y + 0x8000_0000;
        let za: int = a.z + 0x8000_0000;
        let xb: int = b.x + 0x8000_0000;
        let yb: int = b.y + 0x8000_0000;
        let zb: int = b.z + 0x8000_0000;
        let la: int = ya * 0x1_0000_0000 + za;
        let lb: int = yb * 0x1_0000_0000 + zb;
        assert(0 <= la < 0x1_0000_0000_0000_0000);
        assert(0 <= lb < 0x1_0000_0000_0000_0000);
        let ka: int = xa * 0x1_0000_0000_0000_0000 + la;
        let kb: int = xb * 0x1_0000_0000_0000_0000 + lb;
        assert(0 <= ka < 0x1_0000_0000_0000_0000_0000_0000);
        assert(0 <= kb < 0x1_0000_0000_0000_0000_0000_0000);
        assert(chunk_key(a) == ka);
        assert(chunk_key(b) == kb);
        assert(xa == xb) by {
            if xa < xb {
                assert(xb * 0x1_0000_0000_0000_0000 >= xa * 0x1_0000_0000_0000_0000
                    + 0x1_0000_0000_0000_0000);
            }
            if xb < xa {
                assert(xa * 0x1_0000_0000_0000_0000 >= xb * 0x1_0000_0000_0000_0000
                    + 0x1_0000_0000_0000_0000);
            }
        }
        assert(la == lb);
        assert(ya == yb) by {
            if ya < yb {
                assert(yb * 0x1_0000_0000 >= ya * 0x1_0000_0000 + 0x1_0000_0000);
            }
            if yb < ya {
                assert(ya * 0x1_0000_0000 >= yb * 0x1_0000_0000 + 0x1_0000_0000);
            }
        }
        assert(za == zb);
    }
}

fn key_of(index: &ChunkIndex) -> (k: u128)
    ensures
        k == chunk_key(*index),
{
    let x: u128 = (index.x as i64 + 0x8000_0000i64) as u128;
    let y: u128 = (index.y as i64 + 0x8000_0000i64) as u128;
    let z: u128 = (index.z as i64 + 0x8000_0000i64) as u128;
    x * 0x1_0000_0000_0000_0000u128 + y * 0x1_0000_0000u128 + z
}

/// The resident chunks of the world, each stored under its own index.
pub struct VoxelData {
    chunks: HashMap<u128, ChunkData>,
}

impl View for VoxelData {
    type V = Map<ChunkIndex, ChunkData>;

    /// The resident chunks by their index.
    closed spec fn view(&self) -> Map<ChunkIndex, ChunkData> {
        Map::new(
            |index: ChunkIndex| self.chunks@.contains_key(chunk_key(index)),
            |index: ChunkIndex| self.chunks@[chunk_key(index)],
        )
    }
}

/// The material of the voxel at `pos` in the chunks `chunks`, if its chunk
/// is resident.
pub open spec fn voxel_at(chunks: Map<ChunkIndex, ChunkData>, pos: VoxelPos) -> Option<u8> {
    if chunks.contains_key(chunk_of(pos)) {
        Some(
            chunks[chunk_of(pos)].voxel(
                local_of(pos).x as int,
                local_of(pos).y as int,
                local_of(pos).z as int,
            ),
        )
    } else {
        None
    }
}

/// The chunks `chunks` after the voxel at `pos` was overwritten with `tid`;
/// nothing changes where the chunk of `pos` is not resident.
pub open spec fn with_voxel_at(chunks: Map<ChunkIndex, ChunkData>, pos: VoxelPos, tid: u8) -> Map<
    ChunkIndex,
    ChunkData,
> {
    if chunks.contains_key(chunk_of(pos)) {
        chunks.insert(chunk_of(pos), chunks[chunk_of(pos)].with_voxel(local_of(pos), tid))
    } else {
        chunks
    }
}

impl VoxelData {
    /// Whether every chunk is stored under its own index. This holds of a
    /// new world and is kept by everything that changes a world.
    pub closed spec fn wf(&self) -> bool {
        forall|k: u128| #[trigger]
            self.chunks@.contains_key(k) ==> chunk_key(self.chunks@[k].index) == k
    }

    /// A world without chunks.
    pub fn new() -> (world: VoxelData)
        ensures
            world.wf(),
            world@ == Map::<ChunkIndex, ChunkData>::empty(),
    {
        let world = VoxelData { chunks: HashMap::new() };
        assert(world@ =~= Map::<ChunkIndex, ChunkData>::empty());
        world
    }

    /// Number of resident chunks.
    pub fn len(&self) -> (n: usize)
        requires
            self.wf(),
        ensures
            n == self@.dom().len(),
            self@.dom().finite(),
    {
        proof {
            self.lemma_dom_size();
        }
        self.chunks.len()
    }

    /// Whether the chunk at `index` is resident.
    pub fn contains_key(&self, index: &ChunkIndex) -> (b: bool)
        ensures
            b == self@.contains_key(*index),
    {
        let k = key_of(index);
        self.chunks.contains_key(&k)
    }

    /// The chunk at `index`, if it is resident. Every chunk is stored under
    /// its own index.
    pub fn get(&self, index: &ChunkIndex) -> (r: Option<&ChunkData>)
        requires
            self.wf(),
        ensures
            match r {
                Some(chunk) => self@.contains_key(*index) && *chunk == self@[*index] && chunk.index
                    == *index,
                None => !self@.contains_key(*index),
            },
    {
        let k = key_of(index);
        let r = self.chunks.get(&k);
        proof {
            if let Some(chunk) = r {
                lemma_chunk_key_injective(chunk.index, *index);
            }
        }
        r
    }

    /// Makes `chunk` resident under its own index and returns the chunk that
    /// was resident there before, if there was one.
    pub fn insert(&mut self, chunk: ChunkData) -> (before: Option<ChunkData>)
        requires
            old(self).wf(),
        ensures
            final(self).wf(),
            final(self)@ == old(self)@.insert(chunk.index, chunk),
            match before {
                Some(c) => old(self)@.contains_key(chunk.index) && c == old(self)@[chunk.index],
                None => !old(self)@.contains_key(chunk.index),
            },
    {
        let k = key_of(&chunk.index);
        let before = self.chunks.insert(k, chunk);
        proof {
            assert forall|j: ChunkIndex| j != chunk.index implies chunk_key(j) != k by {
                lemma_chunk_key_injective(j, chunk.index);
            }
            assert(self@ =~= old(self)@.insert(chunk.index, chunk));
        }
        before
    }

    /// Evicts the chunk at `index` and returns it, if it was resident.
    pub fn remove(&mut self, index: &ChunkIndex) -> (evicted: Option<ChunkData>)
        requires
            old(self).wf(),
        ensures
            final(self).wf(),
            final(self)@ == old(self)@.remove(*index),
            match evicted {
                Some(c) => old(self)@.contains_key(*index) && c == old(self)@[*index],
                None => !old(self)@.contains_key(*index),
            },
    {
        let k = key_of(index);
        let evicted = self.chunks.remove(&k);
        proof {
            assert forall|j: ChunkIndex| j != *index implies chunk_key(j) != k by {
                lemma_chunk_key_injective(j, *index);
            }
            assert(self@ =~= old(self)@.remove(*index));
        }
        evicted
    }

    /// The material of the voxel at `pos`, if its chunk is resident.
    pub fn voxel(&self, pos: &VoxelPos) -> (tid: Option<u8>)
        requires
            self.wf(),
        ensures
            tid == voxel_at(self@, *pos),
    {
        let (chunk_index, local) = pos_to_voxel(pos);
        match self.get(&chunk_index) {
            Some(chunk) => Some(chunk.get(&local)),
            None => None,
        }
    }

    /// Overwrites the voxel at `pos` with the material `tid` where the chunk
    /// of `pos` is resident, and says whether it is.
    pub fn set_voxel(&mut self, pos: &VoxelPos, tid: u8) -> (done: bool)
        requires
            old(self).wf(),
        ensures
            final(self).wf(),
            done == old(self)@.contains_key(chunk_of(*pos)),
            final(self)@ == with_voxel_at(old(self)@, *pos, tid),
    {
        let (chunk_index, local) = pos_to_voxel(pos);
        let found = match self.get(&chunk_index) {
            Some(chunk) => Some(*chunk),
            None => None,
        };
        match found {
            Some(chunk) => {
                let mut changed = chunk;
                changed.set(&local, tid);
                self.insert(changed);
                true
            },
            None => false,
        }
    }

    /// The indices of all resident chunks, each once, in no particular
    /// order.
    pub fn indices(&self) -> (all: Vec<ChunkIndex>)
        requires
            self.wf(),
        ensures
            all@.no_duplicates(),
            all@.to_set() == self@.dom(),
    {
        let mut all: Vec<ChunkIndex> = Vec::new();
        let keys = self.chunks.keys();
        let ghost key_seq = keys.remaining();
        assert(key_seq.unref().to_set() == self.chunks@.dom());
        assert(key_seq.no_duplicates());
        for k in it: keys
            invariant
                key_seq == it.seq(),
                it.seq().unref().to_set() == self.chunks@.dom(),
                it.seq().no_duplicates(),
                all@.len() == it.index(),
                forall|i: int|
                    0 <= i < all@.len() ==> chunk_key(#[trigger] all@[i]) == *it.seq()[i],
                forall|k: u128| #[trigger]
                    self.chunks@.contains_key(k) ==> chunk_key(self.chunks@[k].index) == k,
        {
            assert(it.seq().unref()[it.index() as int] == *k);
            assert(it.seq().unref().to_set().contains(*k));
            let chunk = self.chunks.get(k);
            match chunk {
                Some(c) => {
                    all.push(c.index);
                },
                None => {
                    assert(false);
                },
            }
        }
        proof {
            assert forall|i: int, j: int| 0 <= i < j < all@.len() implies all@[i] != all@[j] by {
                assert(*key_seq[i] != *key_seq[j]);
            }
            assert(all@.to_set() =~= self@.dom()) by {
                assert forall|index: ChunkIndex| self@.dom().contains(index) implies all@.to_set().contains(
                    index,
                ) by {
                    let k = chunk_key(index);
                    assert(key_seq.unref().to_set().contains(k));
                    let i = choose|i: int| 0 <= i < key_seq.unref().len() && key_seq.unref()[i] == k;
                    lemma_chunk_key_injective(all@[i], index);
                    assert(all@[i] == index);
                }
                assert forall|index: ChunkIndex| all@.to_set().contains(index) implies self@.dom().contains(
                    index,
                ) by {
                    let i = choose|i: int| 0 <= i < all@.len() && all@[i] == index;
                    assert(key_seq.unref()[i] == chunk_key(index));
                    assert(key_seq.unref().to_set().contains(chunk_key(index)));
                }
            }
        }
        all
    }

    proof fn lemma_dom_size(&self)
        requires
            self.wf(),
        ensures
            self@.dom().finite(),
            self@.dom().len() == self.chunks@.dom().len(),
    {
        let keys = self.chunks@.dom();
        let f = |k: u128| self.chunks@[k].index;
        assert(injective_on(f, keys));
        assert(keys.map(f) =~= self@.dom()) by {
            assert forall|index: ChunkIndex| self@.dom().contains(index) implies keys.map(f).contains(
                index,
            ) by {
                let k = chunk_key(index);
                lemma_chunk_key_injective(f(k), index);
                assert(keys.contains(k) && f(k) == index);
            }
        }
        lemma_map_size(keys, self@.dom(), f);
    }
}

impl Default for VoxelData {
    fn default() -> (world: VoxelData)
        ensures
            world.wf(),
            world@ == Map::<ChunkIndex, ChunkData>::empty(),
    {
        VoxelData::new()
    }
}

} // verus!
