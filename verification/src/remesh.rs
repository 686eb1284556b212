//! The meshes of the columns: one mesh for the 16 chunks of a column, marked
//! dirty when the column changes and rebuilt once all of its chunks are
//! resident.

use crate::chunk::ChunkData;
use crate::coords::{
    chunk_in_column, column_key, in_sight, key_column, lemma_column_key,
    lemma_column_key_injective, ChunkColumn, ChunkIndex,
};
use crate::mesh::{
    combine, combine_meshes, empty_mesh, lemma_combine_well_formed, quads_mesh, total_vertices,
    views, well_formed, MeshData, MeshView,
};
use crate::queues::ChunkMeshesUpdateQueue;
use crate::surface::{face_count, greedy_meshing, greedy_quads, lemma_surface_len};
use crate::world::VoxelData;
use crate::sequences::lemma_push_contains;
use std::collections::HashMap;
use vstd::prelude::*;
use vstd::relations::injective_on;
use vstd::set_lib::lemma_map_size;
use vstd::std_specs::hash::group_hash_axioms;
use vstd::std_specs::iter::IteratorSpec;

verus! {

broadcast use group_hash_axioms;

/// The mesh of one column and whether it has to be rebuilt.
pub struct ColumnMesh {
    pub column: ChunkColumn,
    pub dirty: bool,
    pub mesh: MeshData,
}

/// What a column mesh holds, with its mesh as sequences.
pub struct ColumnEntry {
    pub column: ChunkColumn,
    pub dirty: bool,
    pub mesh: MeshView,
}

impl View for ColumnMesh {
    type V = ColumnEntry;

    open spec fn view(&self) -> ColumnEntry {
        ColumnEntry { column: self.column, dirty: self.dirty, mesh: self.mesh@ }
    }
}

/// Whether all 16 chunks of `column` are resident in `chunks`.
pub open spec fn column_complete(chunks: Map<ChunkIndex, ChunkData>, column: ChunkColumn) -> bool {
    forall|y: int| 0 <= y < 16 ==> chunks.contains_key(#[trigger] chunk_in_column(column, y))
}

/// The merged surfaces of the lowest `n` chunks of `column`, from the
/// bottom up.
pub open spec fn level_meshes(chunks: Map<ChunkIndex, ChunkData>, column: ChunkColumn, n: int) -> Seq<
    MeshView,
> {
    Seq::new(n as nat, |y: int| quads_mesh(greedy_quads(chunks[chunk_in_column(column, y)])))
}

/// The mesh of `column`: the merged surfaces of its 16 chunks, joined from
/// the bottom up.
pub open spec fn column_mesh(chunks: Map<ChunkIndex, ChunkData>, column: ChunkColumn) -> MeshView {
    combine(level_meshes(chunks, column, 16))
}

/// Meshes of at most `bound` vertices each have at most `bound` vertices
/// per mesh together.
proof fn lemma_total_vertices_bound(ms: Seq<MeshView>, bound: nat)
    requires
        forall|i: int| 0 <= i < ms.len() ==> (#[trigger] ms[i]).positions.len() <= bound,
    ensures
        total_vertices(ms) <= ms.len() * bound,
    decreases ms.len(),
{
    if ms.len() > 0 {
        let front = ms.drop_last();
        assert forall|i: int| 0 <= i < front.len() implies (#[trigger] front[i]).positions.len()
            <= bound by {
            assert(front[i] == ms[i]);
        }
        lemma_total_vertices_bound(front, bound);
        assert(ms.len() * bound == front.len() * bound + bound) by (nonlinear_arith)
            requires
                ms.len() == front.len() + 1,
        ;
    }
}

/// Whether all 16 chunks of `column` are resident.
pub fn column_is_complete(voxel_data: &VoxelData, column: &ChunkColumn) -> (complete: bool)
    ensures
        complete == column_complete(voxel_data@, *column),
{
    let mut y: i32 = 0;
    while y < 16
        invariant
            0 <= y <= 16,
            forall|b: int|
                0 <= b < y ==> voxel_data@.contains_key(#[trigger] chunk_in_column(*column, b)),
        decreases 16 - y,
    {
        if !voxel_data.contains_key(&column.chunk_at(y)) {
            assert(!voxel_data@.contains_key(chunk_in_column(*column, y as int)));
            return false;
        }
        y += 1;
    }
    true
}

/// The mesh of `column`, if all of its chunks are resident: the merged
/// surface of each chunk, joined from the bottom up.
pub fn build_column_mesh(voxel_data: &VoxelData, column: &ChunkColumn) -> (built: Option<MeshData>)
    requires
        voxel_data.wf(),
    ensures
        match built {
            Some(mesh) => column_complete(voxel_data@, *column) && mesh@ == column_mesh(
                voxel_data@,
                *column,
            ) && well_formed(mesh@),
            None => !column_complete(voxel_data@, *column),
        },
{
    if !column_is_complete(voxel_data, column) {
        return None;
    }
    let mut chunks_mesh_data: Vec<MeshData> = Vec::new();
    let mut y: i32 = 0;
    while y < 16
        invariant
            0 <= y <= 16,
            voxel_data.wf(),
            column_complete(voxel_data@, *column),
            chunks_mesh_data@.len() == y,
            views(chunks_mesh_data@) == level_meshes(voxel_data@, *column, y as int),
            forall|i: int|
                0 <= i < y ==> well_formed(#[trigger] views(chunks_mesh_data@)[i]) && views(
                    chunks_mesh_data@,
                )[i].positions.len() <= 4 * face_count(),
        decreases 16 - y,
    {
        let index = column.chunk_at(y);
        assert(voxel_data@.contains_key(chunk_in_column(*column, y as int)));
        match voxel_data.get(&index) {
            Some(chunk_data) => {
                let ghost before = views(chunks_mesh_data@);
                let mesh = greedy_meshing(chunk_data);
                proof {
                    lemma_surface_len(*chunk_data, true, face_count());
                }
                chunks_mesh_data.push(mesh);
                proof {
                    assert(views(chunks_mesh_data@) =~= before.push(mesh@));
                    assert(views(chunks_mesh_data@) =~= level_meshes(
                        voxel_data@,
                        *column,
                        y as int + 1,
                    ));
                }
            },
            None => {
                assert(false);
            },
        }
        y += 1;
    }
    proof {
        let ms = views(chunks_mesh_data@);
        lemma_total_vertices_bound(ms, (4 * face_count()) as nat);
        lemma_combine_well_formed(ms);
    }
    Some(combine_meshes(chunks_mesh_data.as_slice()))
}

/// A column mesh that waits to be built: dirty, with an empty mesh.
pub open spec fn fresh(column: ChunkColumn) -> ColumnEntry {
    ColumnEntry { column, dirty: true, mesh: empty_mesh() }
}

/// The column meshes `entries` after each column of `pending` was marked
/// dirty: the mesh of such a column is replaced by one that waits to be
/// built, and a column without a mesh gets one; the others stay.
pub open spec fn with_all_dirty(
    entries: Map<ChunkColumn, ColumnEntry>,
    pending: Set<ChunkColumn>,
) -> Map<ChunkColumn, ColumnEntry> {
    Map::new(
        |column: ChunkColumn| entries.contains_key(column) || pending.contains(column),
        |column: ChunkColumn|
            if pending.contains(column) {
                fresh(column)
            } else {
                entries[column]
            },
    )
}

/// The column mesh `entry` after the rebuilding stage of a cycle over the
/// chunks `chunks`. It is clean in any case. Where it was dirty and all
/// chunks of its column are resident, it holds the mesh of the column;
/// else it keeps its mesh: a dirty column with a chunk missing is dropped
/// from the cycle, and is rebuilt only after it was marked again.
pub open spec fn refreshed(entry: ColumnEntry, chunks: Map<ChunkIndex, ChunkData>) -> ColumnEntry {
    if entry.dirty && column_complete(chunks, entry.column) {
        ColumnEntry { column: entry.column, dirty: false, mesh: column_mesh(chunks, entry.column) }
    } else {
        ColumnEntry { column: entry.column, dirty: false, mesh: entry.mesh }
    }
}

/// The column meshes `entries` after the rebuilding stage of a cycle over
/// the chunks `chunks`.
pub open spec fn all_refreshed(
    entries: Map<ChunkColumn, ColumnEntry>,
    chunks: Map<ChunkIndex, ChunkData>,
) -> Map<ChunkColumn, ColumnEntry> {
    Map::new(
        |column: ChunkColumn| entries.contains_key(column),
        |column: ChunkColumn| refreshed(entries[column], chunks),
    )
}

/// The columns that stay for an observer in the chunk `observer`: those
/// within `sight_range` chunks.
pub open spec fn visible_columns(observer: ChunkIndex, sight_range: int) -> Set<ChunkColumn> {
    Set::new(|column: ChunkColumn| in_sight(column.x as int, column.z as int, observer, sight_range))
}

/// A column mesh that went through a cycle is clean, and further cycles
/// leave it as it is, whatever chunks are resident by then: it is built
/// again only after its column was marked again.
pub proof fn lemma_refreshed_settles(
    entry: ColumnEntry,
    chunks: Map<ChunkIndex, ChunkData>,
    later: Map<ChunkIndex, ChunkData>,
)
    ensures
        !refreshed(entry, chunks).dirty,
        refreshed(entry, chunks).column == entry.column,
        !(entry.dirty && column_complete(chunks, entry.column)) ==> refreshed(entry, chunks).mesh
            == entry.mesh,
        refreshed(refreshed(entry, chunks), later) == refreshed(entry, chunks),
{
}

/// After a cycle no column waits: a second cycle without a mark in between
/// changes nothing, whatever chunks are resident by then.
pub proof fn lemma_all_refreshed_settles(
    entries: Map<ChunkColumn, ColumnEntry>,
    chunks: Map<ChunkIndex, ChunkData>,
    later: Map<ChunkIndex, ChunkData>,
)
    ensures
        all_refreshed(all_refreshed(entries, chunks), later) == all_refreshed(entries, chunks),
        forall|column: ChunkColumn| #[trigger]
            all_refreshed(entries, chunks).contains_key(column) ==> !all_refreshed(
                entries,
                chunks,
            )[column].dirty,
{
    assert(all_refreshed(all_refreshed(entries, chunks), later) =~= all_refreshed(entries, chunks));
}

/// After the pending columns were marked dirty, there is a column mesh for
/// each of them, and it waits to be built; marking them once more changes
/// nothing: a column that was marked once or many times is rebuilt once.
pub proof fn lemma_with_all_dirty(entries: Map<ChunkColumn, ColumnEntry>, pending: Set<ChunkColumn>)
    ensures
        forall|column: ChunkColumn|
            pending.contains(column) ==> #[trigger] with_all_dirty(entries, pending).contains_key(
                column,
            ) && with_all_dirty(entries, pending)[column] == fresh(column),
        forall|column: ChunkColumn|
            entries.contains_key(column) && !pending.contains(column) ==> #[trigger] with_all_dirty(
                entries,
                pending,
            ).contains_key(column) && with_all_dirty(entries, pending)[column] == entries[column],
        with_all_dirty(with_all_dirty(entries, pending), pending) == with_all_dirty(entries, pending),
{
    assert(with_all_dirty(with_all_dirty(entries, pending), pending) =~= with_all_dirty(
        entries,
        pending,
    ));
}

/// The meshes of the columns, one for each column that was marked dirty
/// and is still in sight.
pub struct VoxelMeshes {
    columns: HashMap<u64, ColumnMesh>,
}

impl View for VoxelMeshes {
    type V = Map<ChunkColumn, ColumnEntry>;

    /// The column meshes by their column.
    closed spec fn view(&self) -> Map<ChunkColumn, ColumnEntry> {
        Map::new(
            |column: ChunkColumn| self.columns@.contains_key(column_key(column)),
            |column: ChunkColumn| self.columns@[column_key(column)]@,
        )
    }
}

impl VoxelMeshes {
    /// Whether every column mesh is stored under its own column. This
    /// holds of new column meshes and is kept by everything that changes
    /// them.
    pub closed spec fn wf(&self) -> bool {
        forall|key: u64| #[trigger]
            self.columns@.contains_key(key) ==> self.columns@[key].column == key_column(key)
    }

    /// No column meshes.
    pub fn new() -> (meshes: VoxelMeshes)
        ensures
            meshes.wf(),
            meshes@ == Map::<ChunkColumn, ColumnEntry>::empty(),
    {
        let meshes = VoxelMeshes { columns: HashMap::new() };
        assert(meshes@ =~= Map::<ChunkColumn, ColumnEntry>::empty());
        meshes
    }

    /// Number of column meshes.
    pub fn len(&self) -> (n: usize)
        ensures
            self@.dom().finite(),
            n == self@.dom().len(),
    {
        proof {
            self.lemma_size();
        }
        self.columns.len()
    }

    /// Whether `column` has a mesh.
    pub fn contains_key(&self, column: &ChunkColumn) -> (b: bool)
        ensures
            b == self@.contains_key(*column),
    {
        let key = column.key();
        self.columns.contains_key(&key)
    }

    /// The mesh of `column`, if it has one. Every column mesh is stored
    /// under its own column.
    pub fn get(&self, column: &ChunkColumn) -> (found: Option<&ColumnMesh>)
        requires
            self.wf(),
        ensures
            match found {
                Some(entry) => self@.contains_key(*column) && entry@ == self@[*column]
                    && entry.column == *column,
                None => !self@.contains_key(*column),
            },
    {
        let key = column.key();
        proof {
            lemma_column_key(*column, key);
        }
        self.columns.get(&key)
    }

    /// The columns that have a mesh, each once, in no particular order.
    pub fn columns(&self) -> (all: Vec<ChunkColumn>)
        ensures
            all@.no_duplicates(),
            all@.to_set() == self@.dom(),
    {
        let keys = self.keys();
        let mut all: Vec<ChunkColumn> = Vec::new();
        let mut i: usize = 0;
        while i < keys.len()
            invariant
                i <= keys@.len(),
                all@.len() == i,
                forall|j: int| 0 <= j < i ==> (#[trigger] all@[j]) == key_column(keys@[j]),
            decreases keys.len() - i,
        {
            all.push(ChunkColumn::from_key(keys[i]));
            i += 1;
        }
        proof {
            assert forall|a: int, b: int| 0 <= a < b < all@.len() implies all@[a] != all@[b] by {
                lemma_column_key(all@[a], keys@[a]);
                lemma_column_key(all@[b], keys@[b]);
            }
            assert(all@.to_set() =~= self@.dom()) by {
                assert forall|column: ChunkColumn| self@.dom().contains(column) implies all@.to_set().contains(
                    column,
                ) by {
                    let key = column_key(column);
                    assert(keys@.to_set().contains(key));
                    let j = choose|j: int| 0 <= j < keys@.len() && keys@[j] == key;
                    lemma_column_key(column, 0);
                    assert(all@[j] == column);
                }
                assert forall|column: ChunkColumn| all@.to_set().contains(column) implies self@.dom().contains(
                    column,
                ) by {
                    let j = choose|j: int| 0 <= j < all@.len() && all@[j] == column;
                    lemma_column_key(column, keys@[j]);
                    assert(keys@.to_set().contains(keys@[j]));
                }
            }
        }
        all
    }

    /// Marks the mesh of `column` dirty and empties it; a column without a
    /// mesh gets one.
    pub fn mark_dirty(&mut self, column: ChunkColumn)
        requires
            old(self).wf(),
        ensures
            final(self).wf(),
            final(self)@ == old(self)@.insert(column, fresh(column)),
    {
        let key = column.key();
        let waiting = ColumnMesh { column, dirty: true, mesh: MeshData::new() };
        proof {
            lemma_column_key(column, key);
        }
        self.columns.insert(key, waiting);
        proof {
            assert forall|other: ChunkColumn| other != column implies column_key(other) != key by {
                lemma_column_key_injective(other, column);
            }
            assert(self@ =~= old(self)@.insert(column, fresh(column)));
        }
    }

    /// Drops the meshes of the columns whose distance from the observer's
    /// chunk is greater than `sight_range`; the others stay as they are.
    pub fn retain_in_sight(&mut self, observer: &ChunkIndex, sight_range: u8)
        requires
            old(self).wf(),
        ensures
            final(self).wf(),
            final(self)@ == old(self)@.restrict(visible_columns(*observer, sight_range as int)),
    {
        let ghost before = self.columns@;
        let ghost keep = visible_columns(*observer, sight_range as int);
        let keys = self.keys();
        let mut i: usize = 0;
        while i < keys.len()
            invariant
                i <= keys@.len(),
                self.wf(),
                keys@.to_set() == before.dom(),
                keep == visible_columns(*observer, sight_range as int),
                forall|key: u64| #[trigger]
                    self.columns@.contains_key(key) <==> before.contains_key(key) && (keep.contains(
                        key_column(key),
                    ) || !keys@.take(i as int).contains(key)),
                forall|key: u64| #[trigger]
                    self.columns@.contains_key(key) ==> self.columns@[key] == before[key],
            decreases keys.len() - i,
        {
            let key = keys[i];
            proof {
                assert(keys@.take(i as int + 1) =~= keys@.take(i as int).push(key));
                assert forall|other: u64| #[trigger]
                    keys@.take(i as int + 1).contains(other) <==> keys@.take(i as int).contains(other)
                        || other == key by {
                    lemma_push_contains(keys@.take(i as int), key, other);
                }
            }
            if !ChunkColumn::from_key(key).is_in_sight(observer, sight_range) {
                self.columns.remove(&key);
            }
            i += 1;
        }
        proof {
            assert(keys@.take(keys@.len() as int) =~= keys@);
            assert forall|key: u64| before.contains_key(key) implies keys@.contains(key) by {
                assert(keys@.to_set().contains(key));
            }
            assert(self@ =~= old(self)@.restrict(keep)) by {
                assert forall|column: ChunkColumn| #[trigger]
                    self@.contains_key(column) <==> old(self)@.restrict(keep).contains_key(column) by {
                    lemma_column_key(column, 0);
                }
            }
        }
    }

    /// The numbers of the columns that have a mesh, each once.
    fn keys(&self) -> (all: Vec<u64>)
        ensures
            all@.no_duplicates(),
            all@.to_set() == self.columns@.dom(),
    {
        let mut all: Vec<u64> = Vec::new();
        let keys = self.columns.keys();
        let ghost key_seq = keys.remaining();
        assert(key_seq.unref().to_set() == self.columns@.dom());
        assert(key_seq.no_duplicates());
        for key in it: keys
            invariant
                key_seq == it.seq(),
                all@.len() == it.index(),
                forall|i: int| 0 <= i < all@.len() ==> (#[trigger] all@[i]) == *it.seq()[i],
        {
            all.push(*key);
        }
        proof {
            assert(all@ =~= key_seq.unref());
            assert forall|i: int, j: int| 0 <= i < j < all@.len() implies all@[i] != all@[j] by {
                assert(*key_seq[i] != *key_seq[j]);
            }
        }
        all
    }

    proof fn lemma_size(&self)
        ensures
            self@.dom().finite(),
            self@.dom().len() == self.columns@.dom().len(),
    {
        let keys = self.columns@.dom();
        let f = |key: u64| key_column(key);
        assert(injective_on(f, keys)) by {
            assert forall|a: u64, b: u64| keys.contains(a) && keys.contains(b) && f(a) == f(
                b,
            ) implies a == b by {
                lemma_column_key(f(a), a);
                lemma_column_key(f(b), b);
            }
        }
        assert(keys.map(f) =~= self@.dom()) by {
            assert forall|column: ChunkColumn| self@.dom().contains(column) implies keys.map(f).contains(
                column,
            ) by {
                lemma_column_key(column, 0);
                assert(keys.contains(column_key(column)) && f(column_key(column)) == column);
            }
            assert forall|column: ChunkColumn| keys.map(f).contains(column) implies self@.dom().contains(
                column,
            ) by {
                let key = choose|key: u64| keys.contains(key) && f(key) == column;
                lemma_column_key(column, key);
            }
        }
        lemma_map_size(keys, self@.dom(), f);
    }
}

impl Default for VoxelMeshes {
    fn default() -> (meshes: VoxelMeshes)
        ensures
            meshes.wf(),
            meshes@ == Map::<ChunkColumn, ColumnEntry>::empty(),
    {
        VoxelMeshes::new()
    }
}

/// Marks every pending column dirty in the column meshes and empties the
/// queue.
pub fn handle_chunk_meshes_update_queue(
    chunk_meshes_update_queue: &mut ChunkMeshesUpdateQueue,
    column_meshes: &mut VoxelMeshes,
)
    requires
        old(column_meshes).wf(),
    ensures
        final(column_meshes).wf(),
        final(column_meshes)@ == with_all_dirty(old(column_meshes)@, old(chunk_meshes_update_queue)@),
        final(chunk_meshes_update_queue)@ == Set::<ChunkColumn>::empty(),
{
    let ghost entries = column_meshes@;
    let pending = chunk_meshes_update_queue.pending();
    proof {
        assert(pending@.take(0).to_set() =~= Set::<ChunkColumn>::empty());
        assert(column_meshes@ =~= with_all_dirty(entries, pending@.take(0).to_set()));
    }
    let mut i: usize = 0;
    while i < pending.len()
        invariant
            i <= pending@.len(),
            column_meshes.wf(),
            column_meshes@ == with_all_dirty(entries, pending@.take(i as int).to_set()),
        decreases pending.len() - i,
    {
        let column = pending[i];
        proof {
            assert(pending@.take(i as int + 1) =~= pending@.take(i as int).push(column));
            assert(pending@.take(i as int + 1).to_set() =~= pending@.take(i as int).to_set().insert(
                column,
            )) by {
                assert forall|other: ChunkColumn| #[trigger]
                    pending@.take(i as int + 1).contains(other) <==> pending@.take(i as int).contains(
                        other,
                    ) || other == column by {
                    lemma_push_contains(pending@.take(i as int), column, other);
                }
            }
        }
        column_meshes.mark_dirty(column);
        proof {
            assert(column_meshes@ =~= with_all_dirty(entries, pending@.take(i as int + 1).to_set()));
        }
        i += 1;
    }
    proof {
        assert(pending@.take(pending@.len() as int) =~= pending@);
    }
    chunk_meshes_update_queue.clear();
}

/// Rebuilds the mesh of every column that is dirty and has all of its
/// chunks resident. A dirty column with a chunk missing is dropped from this
/// cycle: it keeps its mesh and waits for its next mark. No column is dirty
/// afterwards. Returns the columns whose mesh was rebuilt, each once.
pub fn update_column_meshes(column_meshes: &mut VoxelMeshes, voxel_data: &VoxelData) -> (rebuilt: Vec<
    ChunkColumn,
>)
    requires
        old(column_meshes).wf(),
        voxel_data.wf(),
    ensures
        final(column_meshes).wf(),
        final(column_meshes)@ == all_refreshed(old(column_meshes)@, voxel_data@),
        rebuilt@.no_duplicates(),
        forall|column: ChunkColumn| #[trigger]
            rebuilt@.contains(column) <==> old(column_meshes)@.contains_key(column) && old(
                column_meshes,
            )@[column].dirty && column_complete(voxel_data@, column),
{
    let ghost before = column_meshes.columns@;
    let ghost chunks = voxel_data@;
    let keys = column_meshes.keys();
    let mut rebuilt: Vec<ChunkColumn> = Vec::new();
    let mut i: usize = 0;
    while i < keys.len()
        invariant
            i <= keys@.len(),
            voxel_data.wf(),
            chunks == voxel_data@,
            keys@.no_duplicates(),
            keys@.to_set() == before.dom(),
            column_meshes.columns@.dom() == before.dom(),
            forall|key: u64| #[trigger]
                before.contains_key(key) ==> before[key].column == key_column(key),
            forall|key: u64| #[trigger]
                before.contains_key(key) ==> column_meshes.columns@[key]@ == if keys@.take(
                    i as int,
                ).contains(key) {
                    refreshed(before[key]@, chunks)
                } else {
                    before[key]@
                },
            rebuilt@.no_duplicates(),
            forall|column: ChunkColumn| #[trigger]
                rebuilt@.contains(column) <==> keys@.take(i as int).contains(column_key(column))
                    && before[column_key(column)].dirty && column_complete(chunks, column),
        decreases keys.len() - i,
    {
        let key = keys[i];
        let ghost listed = rebuilt@;
        let ghost earlier = column_meshes.columns@;
        proof {
            assert(keys@.to_set().contains(key));
            assert(!keys@.take(i as int).contains(key)) by {
                if keys@.take(i as int).contains(key) {
                    let j = choose|j: int| 0 <= j < i && keys@.take(i as int)[j] == key;
                    assert(keys@[j] == keys@[i as int]);
                }
            }
            assert(keys@.take(i as int + 1) =~= keys@.take(i as int).push(key));
            assert forall|other: u64| #[trigger]
                keys@.take(i as int + 1).contains(other) <==> keys@.take(i as int).contains(other)
                    || other == key by {
                lemma_push_contains(keys@.take(i as int), key, other);
            }
            lemma_column_key(key_column(key), key);
        }
        match column_meshes.columns.remove(&key) {
            Some(entry) => {
                let column = entry.column;
                let ghost was = entry@;
                assert(was == before[key]@);
                let updated = if entry.dirty {
                    match build_column_mesh(voxel_data, &column) {
                        Some(mesh) => {
                            rebuilt.push(column);
                            ColumnMesh { column, dirty: false, mesh }
                        },
                        None => ColumnMesh { column, dirty: false, mesh: entry.mesh },
                    }
                } else {
                    entry
                };
                assert(updated@ == refreshed(was, chunks));
                column_meshes.columns.insert(key, updated);
                proof {
                    assert(column_meshes.columns@.dom() =~= before.dom());
                    assert forall|column2: ChunkColumn| #[trigger]
                        rebuilt@.contains(column2) <==> keys@.take(i as int + 1).contains(
                            column_key(column2),
                        ) && before[column_key(column2)].dirty && column_complete(chunks, column2) by {
                        lemma_push_contains(listed, column, column2);
                        lemma_column_key_injective(column2, column);
                    }
                    assert(rebuilt@.no_duplicates()) by {
                        if rebuilt@.len() > listed.len() {
                            assert(!listed.contains(column));
                            assert forall|a: int, b: int|
                                0 <= a < b < rebuilt@.len() implies rebuilt@[a] != rebuilt@[b] by {
                                if b < listed.len() {
                                    assert(listed[a] != listed[b]);
                                } else {
                                    assert(listed[a] == rebuilt@[a]);
                                    assert(listed.contains(rebuilt@[a]));
                                }
                            }
                        }
                    }
                }
            },
            None => {
                assert(false);
            },
        }
        i += 1;
    }
    proof {
        assert(keys@.take(keys@.len() as int) =~= keys@);
        assert forall|key: u64| before.contains_key(key) implies keys@.contains(key) by {
            assert(keys@.to_set().contains(key));
        }
        assert(column_meshes@ =~= all_refreshed(old(column_meshes)@, chunks));
        assert forall|column: ChunkColumn| #[trigger]
            rebuilt@.contains(column) <==> old(column_meshes)@.contains_key(column) && old(
                column_meshes,
            )@[column].dirty && column_complete(chunks, column) by {
            if old(column_meshes)@.contains_key(column) {
                assert(keys@.contains(column_key(column)));
            }
            if keys@.contains(column_key(column)) {
                assert(keys@.to_set().contains(column_key(column)));
            }
        }
        assert forall|key: u64| #[trigger]
            column_meshes.columns@.contains_key(key) implies column_meshes.columns@[key].column
            == key_column(key) by {
            assert(before.contains_key(key));
            assert(column_meshes.columns@[key]@.column == before[key]@.column);
        }
    }
    rebuilt
}

} // verus!
