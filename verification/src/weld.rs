//! Welding of vertices: vertices that lie close to each other become one
//! vertex, and the triangles are kept, with their indices moved to the
//! vertices that are left.

use crate::mesh::{well_formed, MeshData, MeshView, Vec3i};
use std::collections::HashMap;
use vstd::prelude::*;
use vstd::std_specs::hash::group_hash_axioms;

verus! {

broadcast use group_hash_axioms;

/// The square of the distance between two points.
pub open spec fn distance_squared(a: Vec3i, b: Vec3i) -> int {
    (a.x - b.x) * (a.x - b.x) + (a.y - b.y) * (a.y - b.y) + (a.z - b.z) * (a.z - b.z)
}

/// Whether two points are close enough to be welded: their distance is
/// below `threshold`.
pub open spec fn close(a: Vec3i, b: Vec3i, threshold: int) -> bool {
    distance_squared(a, b) < threshold * threshold
}

/// The place of the first of `kept` that is close to `p`, or the length of
/// `kept` where none is.
pub open spec fn first_close(kept: Seq<Vec3i>, p: Vec3i, threshold: int) -> int
    decreases kept.len(),
{
    if kept.len() == 0 {
        0
    } else {
        let before = first_close(kept.drop_last(), p, threshold);
        if before < kept.len() - 1 {
            before
        } else if close(p, kept.last(), threshold) {
            kept.len() - 1
        } else {
            kept.len() as int
        }
    }
}

/// The places in `positions`, among the first `n`, of the vertices that
/// are kept: each vertex that is not close to a vertex kept before it.
pub open spec fn kept_vertices(positions: Seq<Vec3i>, n: int, threshold: int) -> Seq<int>
    decreases n,
{
    if n <= 0 {
        Seq::empty()
    } else {
        let before = kept_vertices(positions, n - 1, threshold);
        if first_close(places(positions, before), positions[n - 1], threshold) < before.len() {
            before
        } else {
            before.push(n - 1)
        }
    }
}

/// The values at the places `at`.
pub open spec fn places<T>(values: Seq<T>, at: Seq<int>) -> Seq<T> {
    Seq::new(at.len(), |i: int| values[at[i]])
}

/// The vertex that vertex `i` is welded to, as a place among the kept
/// vertices: the first kept vertex that it is close to, or itself where
/// there is none.
pub open spec fn welded_to(positions: Seq<Vec3i>, i: int, threshold: int) -> int {
    first_close(places(positions, kept_vertices(positions, i, threshold)), positions[i], threshold)
}

/// The mesh `m` with its vertices welded: the positions, normals and
/// texture coordinates of the kept vertices, and every index replaced by
/// the place of the vertex that its vertex was welded to.
pub open spec fn welded(m: MeshView, threshold: int) -> MeshView {
    let kept = kept_vertices(m.positions, m.positions.len() as int, threshold);
    MeshView {
        positions: places(m.positions, kept),
        normals: places(m.normals, kept),
        uvs: places(m.uvs, kept),
        indices: Seq::new(
            m.indices.len(),
            |k: int| welded_to(m.positions, m.indices[k] as int, threshold) as u32,
        ),
    }
}

/// The first close vertex lies among the kept ones and is close, and none
/// before it is close; where none is close, the result is the number of
/// kept vertices.
pub proof fn lemma_first_close(kept: Seq<Vec3i>, p: Vec3i, threshold: int)
    ensures
        0 <= first_close(kept, p, threshold) <= kept.len(),
        first_close(kept, p, threshold) < kept.len() ==> close(
            p,
            kept[first_close(kept, p, threshold)],
            threshold,
        ),
        forall|j: int|
            0 <= j < first_close(kept, p, threshold) ==> !close(p, #[trigger] kept[j], threshold),
    decreases kept.len(),
{
    if kept.len() > 0 {
        let front = kept.drop_last();
        lemma_first_close(front, p, threshold);
        assert forall|j: int| 0 <= j < first_close(kept, p, threshold) implies !close(
            p,
            #[trigger] kept[j],
            threshold,
        ) by {
            if j < front.len() {
                assert(kept[j] == front[j]);
            }
        }
        if first_close(front, p, threshold) < front.len() {
            assert(kept[first_close(front, p, threshold)] == front[first_close(
                front,
                p,
                threshold,
            )]);
        }
    }
}

/// The kept vertices are vertices of the mesh, in rising order, and there
/// are no more of them than vertices looked at.
pub proof fn lemma_kept_vertices(positions: Seq<Vec3i>, n: int, threshold: int)
    requires
        0 <= n <= positions.len(),
    ensures
        kept_vertices(positions, n, threshold).len() <= n,
        forall|j: int|
            0 <= j < kept_vertices(positions, n, threshold).len() ==> 0 <= (#[trigger] kept_vertices(
                positions,
                n,
                threshold,
            )[j]) < n,
    decreases n,
{
    if n > 0 {
        lemma_kept_vertices(positions, n - 1, threshold);
    }
}

/// The kept vertices grow only at their end as more vertices are looked at.
pub proof fn lemma_kept_vertices_grow(positions: Seq<Vec3i>, n: int, m: int, threshold: int)
    requires
        0 <= n <= m <= positions.len(),
    ensures
        kept_vertices(positions, n, threshold).len() <= kept_vertices(positions, m, threshold).len(),
        forall|j: int|
            0 <= j < kept_vertices(positions, n, threshold).len() ==> #[trigger] kept_vertices(
                positions,
                m,
                threshold,
            )[j] == kept_vertices(positions, n, threshold)[j],
    decreases m - n,
{
    if n < m {
        lemma_kept_vertices_grow(positions, n, m - 1, threshold);
    }
}

/// Welding keeps the triangles: the welded mesh has as many indices as the
/// mesh had, every index names a kept vertex, and that vertex is close to
/// the vertex that the index named before. The welded mesh of a well-formed
/// mesh is well formed.
pub proof fn lemma_welded_keeps_triangles(m: MeshView, threshold: int)
    requires
        forall|k: int| 0 <= k < m.indices.len() ==> (#[trigger] m.indices[k]) < m.positions.len(),
        m.positions.len() <= u32::MAX,
    ensures
        welded(m, threshold).indices.len() == m.indices.len(),
        welded(m, threshold).positions.len() <= m.positions.len(),
        well_formed(m) ==> well_formed(welded(m, threshold)),
        forall|k: int|
            0 <= k < m.indices.len() ==> {
                &&& (#[trigger] welded(m, threshold).indices[k]) < welded(
                    m,
                    threshold,
                ).positions.len()
                &&& close(
                    m.positions[m.indices[k] as int],
                    welded(m, threshold).positions[welded(m, threshold).indices[k] as int],
                    threshold,
                ) || welded(m, threshold).positions[welded(m, threshold).indices[k] as int]
                    == m.positions[m.indices[k] as int]
            },
{
    let n = m.positions.len() as int;
    let w = welded(m, threshold);
    lemma_kept_vertices(m.positions, n, threshold);
    assert forall|k: int| 0 <= k < m.indices.len() implies {
        &&& (#[trigger] w.indices[k]) < w.positions.len()
        &&& close(m.positions[m.indices[k] as int], w.positions[w.indices[k] as int], threshold)
            || w.positions[w.indices[k] as int] == m.positions[m.indices[k] as int]
    } by {
        let i = m.indices[k] as int;
        lemma_welded_to(m.positions, i, threshold);
    }
}

/// The vertex that a vertex is welded to is a kept vertex of the whole
/// mesh: the vertex itself, or one that it is close to.
pub proof fn lemma_welded_to(positions: Seq<Vec3i>, i: int, threshold: int)
    requires
        0 <= i < positions.len(),
    ensures
        0 <= welded_to(positions, i, threshold) < kept_vertices(
            positions,
            positions.len() as int,
            threshold,
        ).len(),
        welded_to(positions, i, threshold) <= i,
        close(
            positions[i],
            places(positions, kept_vertices(positions, positions.len() as int, threshold))[welded_to(
                positions,
                i,
                threshold,
            )],
            threshold,
        ) || places(
            positions,
            kept_vertices(positions, positions.len() as int, threshold),
        )[welded_to(positions, i, threshold)] == positions[i],
{
    let n = positions.len() as int;
    let before = kept_vertices(positions, i, threshold);
    let after = kept_vertices(positions, i + 1, threshold);
    let all = kept_vertices(positions, n, threshold);
    let j = welded_to(positions, i, threshold);
    lemma_first_close(places(positions, before), positions[i], threshold);
    lemma_kept_vertices(positions, i, threshold);
    lemma_kept_vertices(positions, i + 1, threshold);
    lemma_kept_vertices_grow(positions, i + 1, n, threshold);
    lemma_kept_vertices_grow(positions, i, i + 1, threshold);
    if j < before.len() {
        assert(after == before);
        assert(all[j] == before[j]);
        assert(places(positions, all)[j] == places(positions, before)[j]);
    } else {
        assert(after == before.push(i));
        assert(all[j] == after[j]);
        assert(places(positions, all)[j] == positions[i]);
    }
}

/// The distance between two coordinates.
fn gap(a: i64, b: i64) -> (d: u64)
    ensures
        d == a - b || d == b - a,
        d >= 0,
{
    let diff: i128 = a as i128 - b as i128;
    if diff < 0 {
        (-diff) as u64
    } else {
        diff as u64
    }
}

/// The square of a number.
fn square(v: u64) -> (r: u128)
    ensures
        r == v * v,
{
    assert(v * v <= 0xffff_ffff_ffff_ffff * 0xffff_ffff_ffff_ffff) by (nonlinear_arith)
        requires
            0 <= v <= 0xffff_ffff_ffff_ffff,
    ;
    (v as u128) * (v as u128)
}

/// Whether two points are close enough to be welded.
fn is_close(a: &Vec3i, b: &Vec3i, threshold: u64) -> (r: bool)
    ensures
        r == close(*a, *b, threshold as int),
{
    let dx: u64 = gap(a.x, b.x);
    let dy: u64 = gap(a.y, b.y);
    let dz: u64 = gap(a.z, b.z);
    let ghost ix: int = a.x - b.x;
    let ghost iy: int = a.y - b.y;
    let ghost iz: int = a.z - b.z;
    let ghost t: int = threshold as int;
    proof {
        assert(ix * ix == dx * dx && iy * iy == dy * dy && iz * iz == dz * dz) by (nonlinear_arith)
            requires
                dx == ix || dx == -ix,
                dy == iy || dy == -iy,
                dz == iz || dz == -iz,
        ;
        assert(dx * dx >= 0 && dy * dy >= 0 && dz * dz >= 0) by (nonlinear_arith);
        assert(dx >= t ==> dx * dx >= t * t) by (nonlinear_arith)
            requires
                0 <= dx,
                0 <= t,
        ;
        assert(dy >= t ==> dy * dy >= t * t) by (nonlinear_arith)
            requires
                0 <= dy,
                0 <= t,
        ;
        assert(dz >= t ==> dz * dz >= t * t) by (nonlinear_arith)
            requires
                0 <= dz,
                0 <= t,
        ;
        assert(dx < t ==> dx * dx < t * t) by (nonlinear_arith)
            requires
                0 <= dx,
                0 <= t,
        ;
    }
    if dx >= threshold || dy >= threshold || dz >= threshold {
        false
    } else {
        let room: u128 = square(threshold) - square(dx);
        let y2: u128 = square(dy);
        if y2 >= room {
            false
        } else {
            square(dz) < room - y2
        }
    }
}

/// Welds the vertices of `source`: each vertex that lies closer than
/// `threshold` to a vertex kept before it is dropped, and the indices that
/// named it name the kept vertex instead. The kept vertices keep their
/// positions, normals and texture coordinates. No triangle is removed, and
/// a mesh without vertices that close to each other comes back as it is.
pub fn merge_vertex(source: &MeshData, threshold: u64) -> (dest: MeshData)
    requires
        source@.normals.len() >= source@.positions.len(),
        source@.uvs.len() >= source@.positions.len(),
        source@.positions.len() <= u32::MAX,
        forall|k: int|
            0 <= k < source@.indices.len() ==> (#[trigger] source@.indices[k])
                < source@.positions.len(),
    ensures
        dest@ == welded(source@, threshold as int),
{
    let mut dest = MeshData::new();
    let mut vertex_map: HashMap<usize, usize> = HashMap::new();
    let ghost positions = source@.positions;
    let ghost t = threshold as int;
    let ghost mut kept: Seq<int> = Seq::empty();
    let mut i: usize = 0;
    while i < source.positions.len()
        invariant
            i <= positions.len(),
            positions == source@.positions,
            source@.normals.len() >= positions.len(),
            source@.uvs.len() >= positions.len(),
            t == threshold,
            kept == kept_vertices(positions, i as int, t),
            dest@.positions == places(positions, kept),
            dest@.normals == places(source@.normals, kept),
            dest@.uvs == places(source@.uvs, kept),
            dest@.indices == Seq::<u32>::empty(),
            forall|key: usize| key < i ==> #[trigger] vertex_map@.contains_key(key),
            forall|key: usize|
                key < i ==> (#[trigger] vertex_map@[key]) == welded_to(positions, key as int, t),
        decreases source.positions.len() - i,
    {
        let p = source.positions[i];
        let ghost here = places(positions, kept);
        proof {
            lemma_first_close(here, p, t);
            lemma_kept_vertices(positions, i as int, t);
        }
        let count: usize = dest.positions.len();
        let mut found: usize = count;
        let mut j: usize = 0;
        while j < count && found == count
            invariant
                j <= count,
                count == here.len(),
                dest@.positions == here,
                t == threshold,
                found <= count,
                found == count ==> forall|k: int| 0 <= k < j ==> !close(p, #[trigger] here[k], t),
                found < count ==> close(p, here[found as int], t) && forall|k: int|
                    0 <= k < found ==> !close(p, #[trigger] here[k], t),
            decreases count - j,
        {
            if is_close(&p, &dest.positions[j], threshold) {
                found = j;
            }
            j += 1;
        }
        proof {
            lemma_first_close_is(here, p, t, found as int);
        }
        if found == dest.positions.len() {
            dest.positions.push(p);
            dest.normals.push(source.normals[i]);
            dest.uvs.push(source.uvs[i]);
            proof {
                kept = kept.push(i as int);
                assert(dest@.positions =~= places(positions, kept));
                assert(dest@.normals =~= places(source@.normals, kept));
                assert(dest@.uvs =~= places(source@.uvs, kept));
            }
        }
        vertex_map.insert(i, found);
        i += 1;
    }
    let mut k: usize = 0;
    while k < source.indices.len()
        invariant
            k <= source@.indices.len(),
            positions == source@.positions,
            positions.len() <= u32::MAX,
            t == threshold,
            forall|key: usize| key < positions.len() ==> #[trigger] vertex_map@.contains_key(key),
            forall|key: usize|
                key < positions.len() ==> (#[trigger] vertex_map@[key]) == welded_to(
                    positions,
                    key as int,
                    t,
                ),
            forall|n: int|
                0 <= n < source@.indices.len() ==> (#[trigger] source@.indices[n]) < positions.len(),
            dest@.positions == places(
                positions,
                kept_vertices(positions, positions.len() as int, t),
            ),
            dest@.normals == places(
                source@.normals,
                kept_vertices(positions, positions.len() as int, t),
            ),
            dest@.uvs == places(source@.uvs, kept_vertices(positions, positions.len() as int, t)),
            dest@.indices == Seq::new(
                k as nat,
                |n: int| welded_to(positions, source@.indices[n] as int, t) as u32,
            ),
        decreases source.indices.len() - k,
    {
        let old_index = source.indices[k] as usize;
        proof {
            lemma_welded_to(positions, old_index as int, t);
            assert(vertex_map@.contains_key(old_index) && vertex_map@[old_index] == welded_to(
                positions,
                old_index as int,
                t,
            ));
        }
        let new_index: usize = match vertex_map.get(&old_index) {
            Some(place) => *place,
            None => 0,
        };
        dest.indices.push(new_index as u32);
        proof {
            assert(dest@.indices =~= Seq::new(
                (k + 1) as nat,
                |n: int| welded_to(positions, source@.indices[n] as int, t) as u32,
            ));
        }
        k += 1;
    }
    proof {
        assert(dest@.indices =~= welded(source@, t).indices);
    }
    dest
}

/// Where no vertex has been close to an earlier one, every vertex was kept.
pub proof fn lemma_all_kept(positions: Seq<Vec3i>, n: int, threshold: int)
    requires
        0 <= n <= positions.len(),
        forall|i: int, j: int|
            0 <= i < positions.len() && 0 <= j < positions.len() && i != j ==> !close(
                #[trigger] positions[i],
                #[trigger] positions[j],
                threshold,
            ),
    ensures
        kept_vertices(positions, n, threshold) == Seq::new(n as nat, |i: int| i),
        forall|i: int| 0 <= i < n ==> welded_to(positions, i, threshold) == i,
    decreases n,
{
    if n > 0 {
        lemma_all_kept(positions, n - 1, threshold);
        let before = kept_vertices(positions, n - 1, threshold);
        let here = places(positions, before);
        assert forall|k: int| 0 <= k < here.len() implies !close(
            positions[n - 1],
            #[trigger] here[k],
            threshold,
        ) by {
            assert(here[k] == positions[k]);
        }
        lemma_first_close_is(here, positions[n - 1], threshold, here.len() as int);
        assert(kept_vertices(positions, n, threshold) =~= Seq::new(n as nat, |i: int| i));
    }
}

/// With nothing to weld, welding changes nothing: a well-formed mesh in
/// which no two vertices are closer than `threshold` to each other is its
/// own welded mesh.
pub proof fn lemma_nothing_to_weld(m: MeshView, threshold: int)
    requires
        well_formed(m),
        forall|i: int, j: int|
            0 <= i < m.positions.len() && 0 <= j < m.positions.len() && i != j ==> !close(
                #[trigger] m.positions[i],
                #[trigger] m.positions[j],
                threshold,
            ),
    ensures
        welded(m, threshold) == m,
{
    let n = m.positions.len() as int;
    let w = welded(m, threshold);
    lemma_all_kept(m.positions, n, threshold);
    assert(w.positions =~= m.positions);
    assert(w.normals =~= m.normals);
    assert(w.uvs =~= m.uvs);
    assert(w.indices =~= m.indices) by {
        assert forall|k: int| 0 <= k < m.indices.len() implies w.indices[k] == m.indices[k] by {
            assert(m.indices[k] < m.positions.len());
        }
    }
}

/// A place whose vertex is close while none before it is, or the length
/// where none is close at all, is the first close place.
proof fn lemma_first_close_is(kept: Seq<Vec3i>, p: Vec3i, threshold: int, found: int)
    requires
        0 <= found <= kept.len(),
        forall|k: int| 0 <= k < found ==> !close(p, #[trigger] kept[k], threshold),
        found < kept.len() ==> close(p, kept[found], threshold),
    ensures
        first_close(kept, p, threshold) == found,
{
    lemma_first_close(kept, p, threshold);
    let f = first_close(kept, p, threshold);
    if f < found {
        assert(!close(p, kept[f], threshold));
    }
    if found < f {
        assert(!close(p, kept[found], threshold));
    }
}

} // verus!
