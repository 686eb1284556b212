//! The two queues between the stages of a cycle: the columns whose mesh has
//! to be rebuilt, and the voxel edits that wait to be applied.

use crate::coords::{
    column_key, key_column, lemma_column_key, lemma_column_key_injective, ChunkColumn, VoxelPos,
};
use std::collections::HashSet;
use vstd::prelude::*;
use vstd::relations::injective_on;
use vstd::set_lib::lemma_map_size;
use vstd::seq_lib::seq_to_set_is_finite;
use vstd::std_specs::hash::{group_hash_axioms, spec_hash_keys_iter};
use vstd::std_specs::iter::IteratorSpec;

verus! {

broadcast use group_hash_axioms;

/// The columns `pending` after `column` was marked: the same columns and
/// that one.
pub open spec fn marked(pending: Set<ChunkColumn>, column: ChunkColumn) -> Set<ChunkColumn> {
    pending.insert(column)
}

/// The columns `pending` after `column` was marked `n` times.
pub open spec fn marked_times(pending: Set<ChunkColumn>, column: ChunkColumn, n: nat) -> Set<
    ChunkColumn,
>
    decreases n,
{
    if n == 0 {
        pending
    } else {
        marked(marked_times(pending, column, (n - 1) as nat), column)
    }
}

/// Marking is idempotent: however often a column is marked before the queue
/// is drained, at least once, the queue is as after one mark: it holds the
/// column, and the columns that it held before.
pub proof fn lemma_mark_idempotent(pending: Set<ChunkColumn>, column: ChunkColumn, n: nat)
    requires
        n >= 1,
    ensures
        marked_times(pending, column, n) == marked(pending, column),
        marked_times(pending, column, n).contains(column),
        marked(marked(pending, column), column) == marked(pending, column),
    decreases n,
{
    assert(marked(marked(pending, column), column) =~= marked(pending, column));
    if n > 1 {
        lemma_mark_idempotent(pending, column, (n - 1) as nat);
    } else {
        assert(marked_times(pending, column, 0) == pending);
    }
}

/// The columns whose mesh has to be rebuilt, each at most once.
pub struct ChunkMeshesUpdateQueue {
    queue: HashSet<u64>,
}

impl View for ChunkMeshesUpdateQueue {
    type V = Set<ChunkColumn>;

    /// The pending columns.
    closed spec fn view(&self) -> Set<ChunkColumn> {
        Set::new(|column: ChunkColumn| self.queue@.contains(column_key(column)))
    }
}

impl ChunkMeshesUpdateQueue {
    /// A queue without pending columns.
    pub fn new() -> (q: ChunkMeshesUpdateQueue)
        ensures
            q@ == Set::<ChunkColumn>::empty(),
    {
        let q = ChunkMeshesUpdateQueue { queue: HashSet::new() };
        assert(q@ =~= Set::<ChunkColumn>::empty());
        q
    }

    /// Number of pending columns.
    pub fn len(&self) -> (n: usize)
        ensures
            self@.finite(),
            n == self@.len(),
    {
        proof {
            self.lemma_size();
        }
        self.queue.len()
    }

    /// Whether no column is pending.
    pub fn is_empty(&self) -> (b: bool)
        ensures
            b == (self@ == Set::<ChunkColumn>::empty()),
    {
        let b = self.queue.is_empty();
        proof {
            if b {
                assert(self@ =~= Set::<ChunkColumn>::empty());
            } else {
                let key = choose|key: u64| self.queue@.contains(key);
                lemma_column_key(key_column(key), key);
                assert(self@.contains(key_column(key)));
            }
        }
        b
    }

    /// Whether `column` is pending.
    pub fn contains(&self, column: &ChunkColumn) -> (b: bool)
        ensures
            b == self@.contains(*column),
    {
        let key = column.key();
        self.queue.contains(&key)
    }

    /// Marks `column` for a rebuild. A column that is pending already stays
    /// pending once.
    pub fn mark(&mut self, column: ChunkColumn)
        ensures
            final(self)@ == marked(old(self)@, column),
    {
        let key = column.key();
        self.queue.insert(key);
        proof {
            assert forall|other: ChunkColumn| other != column implies column_key(other) != key by {
                lemma_column_key_injective(other, column);
            }
            assert(self@ =~= marked(old(self)@, column));
        }
    }

    /// The pending columns, each once, in no particular order.
    pub fn pending(&self) -> (columns: Vec<ChunkColumn>)
        ensures
            columns@.no_duplicates(),
            columns@.to_set() == self@,
    {
        let mut columns: Vec<ChunkColumn> = Vec::new();
        let keys = self.queue.iter();
        let ghost key_seq = keys.remaining();
        assert(key_seq.unref().to_set() == self.queue@);
        assert(key_seq.no_duplicates());
        for key in it: keys
            invariant
                key_seq == it.seq(),
                columns@.len() == it.index(),
                forall|i: int|
                    0 <= i < columns@.len() ==> (#[trigger] columns@[i]) == key_column(*it.seq()[i]),
        {
            columns.push(ChunkColumn::from_key(*key));
        }
        proof {
            assert forall|i: int, j: int| 0 <= i < j < columns@.len() implies columns@[i]
                != columns@[j] by {
                assert(*key_seq[i] != *key_seq[j]);
                lemma_column_key(columns@[i], *key_seq[i]);
                lemma_column_key(columns@[j], *key_seq[j]);
            }
            assert(columns@.to_set() =~= self@) by {
                assert forall|column: ChunkColumn| self@.contains(column) implies columns@.to_set().contains(
                    column,
                ) by {
                    let key = column_key(column);
                    assert(key_seq.unref().to_set().contains(key));
                    let i = choose|i: int| 0 <= i < key_seq.unref().len() && key_seq.unref()[i] == key;
                    lemma_column_key(column, 0);
                    assert(columns@[i] == column);
                }
                assert forall|column: ChunkColumn| columns@.to_set().contains(column) implies self@.contains(
                    column,
                ) by {
                    let i = choose|i: int| 0 <= i < columns@.len() && columns@[i] == column;
                    lemma_column_key(column, *key_seq[i]);
                    assert(key_seq.unref()[i] == column_key(column));
                    assert(key_seq.unref().to_set().contains(column_key(column)));
                }
            }
        }
        columns
    }

    /// Empties the queue.
    pub fn clear(&mut self)
        ensures
            final(self)@ == Set::<ChunkColumn>::empty(),
    {
        self.queue.clear();
        proof {
            assert(self@ =~= Set::<ChunkColumn>::empty());
        }
    }

    proof fn lemma_size(&self)
        ensures
            self@.finite(),
            self@.len() == self.queue@.len(),
    {
        let keys = self.queue@;
        let f = |key: u64| key_column(key);
        assert(keys.finite()) by {
            let listed = spec_hash_keys_iter(&self.queue).remaining().unref();
            assert(listed.to_set() == keys);
            seq_to_set_is_finite(listed);
        }
        assert(injective_on(f, keys)) by {
            assert forall|a: u64, b: u64| keys.contains(a) && keys.contains(b) && f(a) == f(
                b,
            ) implies a == b by {
                lemma_column_key(f(a), a);
                lemma_column_key(f(b), b);
            }
        }
        assert(keys.map(f) =~= self@) by {
            assert forall|column: ChunkColumn| self@.contains(column) implies keys.map(f).contains(
                column,
            ) by {
                lemma_column_key(column, 0);
                assert(keys.contains(column_key(column)) && f(column_key(column)) == column);
            }
            assert forall|column: ChunkColumn| keys.map(f).contains(column) implies self@.contains(
                column,
            ) by {
                let key = choose|key: u64| keys.contains(key) && f(key) == column;
                lemma_column_key(column, key);
            }
        }
        lemma_map_size(keys, self@, f);
    }
}

impl Default for ChunkMeshesUpdateQueue {
    fn default() -> (q: ChunkMeshesUpdateQueue)
        ensures
            q@ == Set::<ChunkColumn>::empty(),
    {
        ChunkMeshesUpdateQueue::new()
    }
}

/// The voxel edits that wait to be applied, in the order in which they were
/// submitted: the position of a voxel and its new material.
pub struct VoxelModifyQueue {
    pub queue: Vec<(VoxelPos, u8)>,
}

impl View for VoxelModifyQueue {
    type V = Seq<(VoxelPos, u8)>;

    open spec fn view(&self) -> Seq<(VoxelPos, u8)> {
        self.queue@
    }
}

impl VoxelModifyQueue {
    /// A queue without edits.
    pub fn new() -> (q: VoxelModifyQueue)
        ensures
            q@ == Seq::<(VoxelPos, u8)>::empty(),
    {
        VoxelModifyQueue { queue: Vec::new() }
    }

    /// Number of edits that wait.
    pub fn len(&self) -> (n: usize)
        ensures
            n == self@.len(),
    {
        self.queue.len()
    }

    /// Appends the edit that gives the voxel at `pos` the material `tid`.
    pub fn submit(&mut self, pos: VoxelPos, tid: u8)
        ensures
            final(self)@ == old(self)@.push((pos, tid)),
    {
        self.queue.push((pos, tid));
    }
}

impl Default for VoxelModifyQueue {
    fn default() -> (q: VoxelModifyQueue)
        ensures
            q@ == Seq::<(VoxelPos, u8)>::empty(),
    {
        VoxelModifyQueue::new()
    }
}

} // verus!
