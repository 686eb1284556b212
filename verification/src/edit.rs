//! Voxel edits: choosing the voxel that a ray breaks or builds on, and
//! applying the queued edits to the world.

use crate::chunk::{ChunkData, AIR, GROUND};
use crate::coords::{ChunkColumn, ChunkIndex, VoxelPos, chunk_of, column_of, get_chunk_index};
use crate::queues::{marked, ChunkMeshesUpdateQueue, VoxelModifyQueue};
use crate::world::{voxel_at, with_voxel_at, VoxelData};
use vstd::prelude::*;

verus! {

/// What the player does to the voxel that they look at.
#[derive(Debug, Copy, Clone, PartialEq, Eq, Structural)]
pub enum VoxelAction {
    /// Remove the first solid voxel on the ray.
    Break,
    /// Put a voxel into the last empty place before the first solid voxel.
    Place,
}

/// Whether the voxel at `pos` is solid: its chunk is resident and the voxel
/// is not empty.
pub open spec fn is_solid(chunks: Map<ChunkIndex, ChunkData>, pos: VoxelPos) -> bool {
    voxel_at(chunks, pos) matches Some(tid) && tid != AIR
}

/// Whether `k` is the place of the first solid voxel among `positions`.
pub open spec fn first_solid_at(
    chunks: Map<ChunkIndex, ChunkData>,
    positions: Seq<VoxelPos>,
    k: int,
) -> bool {
    &&& 0 <= k < positions.len()
    &&& is_solid(chunks, positions[k])
    &&& forall|j: int| 0 <= j < k ==> !is_solid(chunks, #[trigger] positions[j])
}

/// The edit that `action` asks for where the first solid voxel of
/// `positions` stands at place `k`: breaking empties that voxel; placing
/// fills the position before it, or the first position where the first
/// voxel is solid itself.
pub open spec fn edit_for(positions: Seq<VoxelPos>, k: int, action: VoxelAction) -> (VoxelPos, u8) {
    match action {
        VoxelAction::Break => (positions[k], AIR),
        VoxelAction::Place => (
            if k == 0 {
                positions[0]
            } else {
                positions[k - 1]
            },
            GROUND,
        ),
    }
}

/// Queues the edit that `action` asks for along the voxels that a ray
/// passes through, nearest first, and returns it. Nothing is queued where
/// the ray meets no solid voxel.
pub fn hit_voxel(
    voxel_data: &VoxelData,
    voxel_positions: &[VoxelPos],
    action: VoxelAction,
    voxel_modify_queue: &mut VoxelModifyQueue,
) -> (queued: Option<(VoxelPos, u8)>)
    requires
        voxel_data.wf(),
    ensures
        match queued {
            Some(edit) => {
                &&& exists|k: int| #[trigger]
                    first_solid_at(voxel_data@, voxel_positions@, k) && edit == edit_for(
                        voxel_positions@,
                        k,
                        action,
                    )
                &&& final(voxel_modify_queue)@ == old(voxel_modify_queue)@.push(edit)
            },
            None => {
                &&& forall|j: int|
                    0 <= j < voxel_positions@.len() ==> !is_solid(
                        voxel_data@,
                        #[trigger] voxel_positions@[j],
                    )
                &&& final(voxel_modify_queue)@ == old(voxel_modify_queue)@
            },
        },
{
    if voxel_positions.len() == 0 {
        return None;
    }
    let mut previous = voxel_positions[0];
    let mut k: usize = 0;
    while k < voxel_positions.len()
        invariant
            k <= voxel_positions@.len(),
            voxel_positions@.len() > 0,
            voxel_data.wf(),
            previous == if k == 0 {
                voxel_positions@[0]
            } else {
                voxel_positions@[k - 1]
            },
            forall|j: int| 0 <= j < k ==> !is_solid(voxel_data@, #[trigger] voxel_positions@[j]),
            voxel_modify_queue@ == old(voxel_modify_queue)@,
        decreases voxel_positions.len() - k,
    {
        let voxel_position = voxel_positions[k];
        let solid = match voxel_data.voxel(&voxel_position) {
            Some(tid) => tid != AIR,
            None => false,
        };
        if solid {
            let edit = match action {
                VoxelAction::Break => (voxel_position, AIR),
                VoxelAction::Place => (previous, GROUND),
            };
            voxel_modify_queue.submit(edit.0, edit.1);
            proof {
                assert(first_solid_at(voxel_data@, voxel_positions@, k as int));
                assert(edit == edit_for(voxel_positions@, k as int, action));
            }
            return Some(edit);
        }
        previous = voxel_position;
        k += 1;
    }
    None
}

/// The chunks `chunks` after the edits `edits` were applied in their order;
/// an edit of a voxel whose chunk is not resident changes nothing.
pub open spec fn apply_edits(chunks: Map<ChunkIndex, ChunkData>, edits: Seq<(VoxelPos, u8)>) -> Map<
    ChunkIndex,
    ChunkData,
>
    decreases edits.len(),
{
    if edits.len() == 0 {
        chunks
    } else {
        with_voxel_at(apply_edits(chunks, edits.drop_last()), edits.last().0, edits.last().1)
    }
}

/// The pending columns `pending` after the edits `edits` were applied to
/// `chunks`: the column of every edited voxel whose chunk is resident is
/// marked.
pub open spec fn mark_edits(
    chunks: Map<ChunkIndex, ChunkData>,
    pending: Set<ChunkColumn>,
    edits: Seq<(VoxelPos, u8)>,
) -> Set<ChunkColumn>
    decreases edits.len(),
{
    if edits.len() == 0 {
        pending
    } else {
        let before = mark_edits(chunks, pending, edits.drop_last());
        if chunks.contains_key(chunk_of(edits.last().0)) {
            marked(before, column_of(chunk_of(edits.last().0)))
        } else {
            before
        }
    }
}

/// Edits neither load nor evict chunks.
pub proof fn lemma_apply_edits_dom(chunks: Map<ChunkIndex, ChunkData>, edits: Seq<(VoxelPos, u8)>)
    ensures
        apply_edits(chunks, edits).dom() == chunks.dom(),
    decreases edits.len(),
{
    if edits.len() > 0 {
        lemma_apply_edits_dom(chunks, edits.drop_last());
        let before = apply_edits(chunks, edits.drop_last());
        assert(apply_edits(chunks, edits).dom() =~= before.dom());
    }
}

/// The last edit of a voxel decides: after the edits have been applied, a
/// voxel in a resident chunk holds the material of the last edit, and its
/// column is pending.
pub proof fn lemma_last_edit_wins(
    chunks: Map<ChunkIndex, ChunkData>,
    pending: Set<ChunkColumn>,
    edits: Seq<(VoxelPos, u8)>,
    pos: VoxelPos,
    tid: u8,
)
    requires
        chunks.contains_key(chunk_of(pos)),
    ensures
        voxel_at(apply_edits(chunks, edits.push((pos, tid))), pos) == Some(tid),
        mark_edits(chunks, pending, edits.push((pos, tid))).contains(column_of(chunk_of(pos))),
{
    let all = edits.push((pos, tid));
    assert(all.drop_last() =~= edits);
    lemma_apply_edits_dom(chunks, edits);
    assert(apply_edits(chunks, edits).dom().contains(chunk_of(pos)));
}

/// Applies the queued edits in the order in which they were submitted: each
/// edit overwrites its voxel where the voxel's chunk is resident, and marks
/// the chunk's column for a rebuild; an edit in a chunk that is not resident
/// is dropped. The queue of edits is empty afterwards.
pub fn handle_voxel_modify_queue(
    voxel_data: &mut VoxelData,
    voxel_modify_queue: &mut VoxelModifyQueue,
    chunk_meshes_update_queue: &mut ChunkMeshesUpdateQueue,
)
    requires
        old(voxel_data).wf(),
    ensures
        final(voxel_data).wf(),
        final(voxel_data)@ == apply_edits(old(voxel_data)@, old(voxel_modify_queue)@),
        final(chunk_meshes_update_queue)@ == mark_edits(
            old(voxel_data)@,
            old(chunk_meshes_update_queue)@,
            old(voxel_modify_queue)@,
        ),
        final(voxel_modify_queue)@ == Seq::<(VoxelPos, u8)>::empty(),
{
    let ghost chunks = voxel_data@;
    let ghost pending = chunk_meshes_update_queue@;
    let ghost edits = voxel_modify_queue@;
    let mut i: usize = 0;
    while i < voxel_modify_queue.queue.len()
        invariant
            i <= edits.len(),
            voxel_modify_queue@ == edits,
            voxel_data.wf(),
            voxel_data@ == apply_edits(chunks, edits.take(i as int)),
            chunk_meshes_update_queue@ == mark_edits(chunks, pending, edits.take(i as int)),
        decreases voxel_modify_queue.queue.len() - i,
    {
        let (voxel_position, tid) = voxel_modify_queue.queue[i];
        proof {
            assert(edits.take(i as int + 1).drop_last() =~= edits.take(i as int));
            assert(edits.take(i as int + 1).last() == edits[i as int]);
            lemma_apply_edits_dom(chunks, edits.take(i as int));
            assert(voxel_data@.dom().contains(chunk_of(voxel_position)) == chunks.dom().contains(
                chunk_of(voxel_position),
            ));
        }
        if voxel_data.set_voxel(&voxel_position, tid) {
            let chunk_index = get_chunk_index(&voxel_position);
            chunk_meshes_update_queue.mark(chunk_index.column());
        }
        i += 1;
    }
    proof {
        assert(edits.take(edits.len() as int) =~= edits);
    }
    voxel_modify_queue.queue.clear();
}

} // verus!
