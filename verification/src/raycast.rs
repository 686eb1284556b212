//! Traversal of the voxel grid along a ray: the voxels that a ray passes
//! through, from the nearest to the farthest.
//!
//! Positions along the ray are exact: a point is a voxel and an offset
//! inside it in 65536ths of a voxel, and a reach is given in the same unit.
//! The distance along the ray at which it crosses the next voxel boundary of
//! an axis is kept as a fraction of the whole reach, with the reach along
//! that axis as its denominator.

use crate::coords::VoxelPos;
use crate::mesh::Vec3i;
use vstd::prelude::*;

verus! {

/// Number of position units per voxel edge.
pub const UNITS_PER_VOXEL: u64 = 65536;

/// A point in the world: a voxel, and the offset of the point from the
/// voxel's corner with the least coordinates, in 65536ths of a voxel.
#[derive(Debug, Copy, Clone, PartialEq, Eq, Structural)]
pub struct RayPoint {
    pub voxel: VoxelPos,
    pub x: u16,
    pub y: u16,
    pub z: u16,
}

/// The three axes of the grid.
#[derive(Debug, Copy, Clone, PartialEq, Eq, Structural)]
pub enum Axis {
    X,
    Y,
    Z,
}

/// Where a traversal stands: the voxel that the ray is in, and for each axis
/// how far along that axis the next boundary lies from the ray's start, in
/// position units.
pub struct RayState {
    pub voxel: VoxelPos,
    pub tx: int,
    pub ty: int,
    pub tz: int,
}

/// The length of a reach along one axis.
pub open spec fn magnitude(d: i64) -> int {
    if d < 0 {
        -(d as int)
    } else {
        d as int
    }
}

/// The direction in which a ray moves along an axis: +1, -1, or 0 where it
/// does not move along that axis.
pub open spec fn step_of(d: i64) -> int {
    if d > 0 {
        1
    } else if d < 0 {
        -1
    } else {
        0
    }
}

/// How far the first voxel boundary of an axis lies from the ray's start
/// along that axis, where the start has the offset `offset` in its voxel.
pub open spec fn first_crossing(offset: u16, d: i64) -> int {
    if d > 0 {
        65536 - offset
    } else {
        offset as int
    }
}

/// Whether the ray crosses the boundary at distance `na` along an axis of
/// reach `da` before the boundary at distance `nb` along an axis of reach
/// `db`. A ray never crosses a boundary of an axis that it does not move
/// along.
pub open spec fn sooner(na: int, da: int, nb: int, db: int) -> bool {
    if da == 0 {
        false
    } else if db == 0 {
        true
    } else {
        na * db < nb * da
    }
}

/// Whether the boundary at distance `n` along an axis of reach `d` lies
/// beyond the end of the ray.
pub open spec fn beyond(n: int, d: int) -> bool {
    d == 0 || n > d
}

/// Whether the next boundary of every axis lies beyond the end of the ray.
pub open spec fn exhausted(s: RayState, reach: Vec3i) -> bool {
    &&& beyond(s.tx, magnitude(reach.x))
    &&& beyond(s.ty, magnitude(reach.y))
    &&& beyond(s.tz, magnitude(reach.z))
}

/// The axis whose next boundary the ray crosses first; of two boundaries
/// that it crosses at once, z goes before x and y, and y before x.
pub open spec fn next_axis(s: RayState, reach: Vec3i) -> Axis {
    if sooner(s.tx, magnitude(reach.x), s.ty, magnitude(reach.y)) {
        if sooner(s.tx, magnitude(reach.x), s.tz, magnitude(reach.z)) {
            Axis::X
        } else {
            Axis::Z
        }
    } else {
        if sooner(s.ty, magnitude(reach.y), s.tz, magnitude(reach.z)) {
            Axis::Y
        } else {
            Axis::Z
        }
    }
}

/// The voxel next to `voxel` along `axis` in the direction of the reach.
pub open spec fn neighbour(voxel: VoxelPos, reach: Vec3i, axis: Axis) -> (int, int, int) {
    match axis {
        Axis::X => (voxel.x + step_of(reach.x), voxel.y as int, voxel.z as int),
        Axis::Y => (voxel.x as int, voxel.y + step_of(reach.y), voxel.z as int),
        Axis::Z => (voxel.x as int, voxel.y as int, voxel.z + step_of(reach.z)),
    }
}

/// Whether the voxel next to that of `s` along `axis` has coordinates that
/// can be represented.
pub open spec fn can_step(s: RayState, reach: Vec3i, axis: Axis) -> bool {
    let n = neighbour(s.voxel, reach, axis);
    &&& i32::MIN <= n.0 <= i32::MAX
    &&& i32::MIN <= n.1 <= i32::MAX
    &&& i32::MIN <= n.2 <= i32::MAX
}

/// The state `s` after the ray has crossed the next boundary of `axis`: it
/// is in the next voxel along that axis, and the next boundary of that axis
/// lies one voxel further.
pub open spec fn stepped(s: RayState, reach: Vec3i, axis: Axis) -> RayState {
    let n = neighbour(s.voxel, reach, axis);
    let voxel = VoxelPos { x: n.0 as i32, y: n.1 as i32, z: n.2 as i32 };
    match axis {
        Axis::X => RayState { voxel, tx: s.tx + 65536, ty: s.ty, tz: s.tz },
        Axis::Y => RayState { voxel, tx: s.tx, ty: s.ty + 65536, tz: s.tz },
        Axis::Z => RayState { voxel, tx: s.tx, ty: s.ty, tz: s.tz + 65536 },
    }
}

/// The voxels `out` followed by the voxels that the ray enters from the
/// state `s` on: the ray crosses the nearest boundary again and again, and
/// each voxel that it enters is added, until `cap` voxels are listed, the
/// next boundary of every axis lies beyond the end of the ray, or the next
/// voxel has no coordinates that can be represented.
pub open spec fn trace(s: RayState, reach: Vec3i, out: Seq<VoxelPos>, cap: int) -> Seq<VoxelPos>
    decreases cap - out.len(),
{
    if out.len() >= cap {
        out
    } else {
        let axis = next_axis(s, reach);
        if !can_step(s, reach, axis) {
            out
        } else {
            let next = stepped(s, reach, axis);
            if exhausted(next, reach) {
                out
            } else {
                trace(next, reach, out.push(next.voxel), cap)
            }
        }
    }
}

/// The state of a ray at its start.
pub open spec fn start_state(start: RayPoint, reach: Vec3i) -> RayState {
    RayState {
        voxel: start.voxel,
        tx: first_crossing(start.x, reach.x),
        ty: first_crossing(start.y, reach.y),
        tz: first_crossing(start.z, reach.z),
    }
}

/// The voxels that the ray from `start` over `reach` passes through, nearest
/// first and at most `cap` of them, but always the voxel of `start`.
pub open spec fn ray_voxels(start: RayPoint, reach: Vec3i, cap: int) -> Seq<VoxelPos> {
    trace(start_state(start, reach), reach, seq![start.voxel], cap)
}

/// The greater of a reach's length and one voxel.
pub open spec fn span(d: int) -> int {
    if d > 65536 {
        d
    } else {
        65536
    }
}

/// Whether no distance of `s` has run away: each is at most one voxel
/// beyond the end of the ray or beyond the first voxel.
pub open spec fn bounded(s: RayState, reach: Vec3i) -> bool {
    &&& 0 <= s.tx <= span(magnitude(reach.x)) + 65536
    &&& 0 <= s.ty <= span(magnitude(reach.y)) + 65536
    &&& 0 <= s.tz <= span(magnitude(reach.z)) + 65536
}

/// Whether all boundaries of `s` lie within the first voxel.
pub open spec fn near(s: RayState) -> bool {
    s.tx <= 65536 && s.ty <= 65536 && s.tz <= 65536
}

/// The distance of `s` along `axis`.
pub open spec fn distance(s: RayState, axis: Axis) -> int {
    match axis {
        Axis::X => s.tx,
        Axis::Y => s.ty,
        Axis::Z => s.tz,
    }
}

/// The length of `reach` along `axis`.
pub open spec fn reach_along(reach: Vec3i, axis: Axis) -> int {
    match axis {
        Axis::X => magnitude(reach.x),
        Axis::Y => magnitude(reach.y),
        Axis::Z => magnitude(reach.z),
    }
}

/// A boundary that is crossed no later than one within the ray lies within
/// the ray.
pub proof fn lemma_not_later_within(np: int, dp: int, na: int, da: int)
    requires
        0 <= np,
        0 <= na,
        0 <= dp,
        0 < da,
        na <= da,
        !sooner(na, da, np, dp),
    ensures
        dp > 0,
        np <= dp,
{
    assert(dp > 0);
    assert(np * da <= na * dp);
    assert(np <= dp) by (nonlinear_arith)
        requires
            np * da <= na * dp,
            na <= da,
            0 < da,
            0 < dp,
            0 <= np,
            0 <= na,
    {
        if np > dp {
            assert(np * da >= (dp + 1) * da);
            assert(na * dp <= da * dp);
            assert((dp + 1) * da == dp * da + da);
        }
    }
}

/// Crossing sooner carries over: what is crossed before a boundary that is
/// crossed no later than a third is crossed before the third.
pub proof fn lemma_sooner_carries(na: int, da: int, nb: int, db: int, nc: int, dc: int)
    requires
        0 <= na && 0 <= nb && 0 <= nc,
        0 <= da && 0 <= db && 0 <= dc,
        sooner(na, da, nb, db),
        !sooner(nc, dc, nb, db),
    ensures
        sooner(na, da, nc, dc),
{
    if dc != 0 {
        assert(db != 0);
        assert(na * dc < nc * da) by (nonlinear_arith)
            requires
                na * db < nb * da,
                nb * dc <= nc * db,
                0 < da,
                0 < db,
                0 < dc,
                0 <= na,
                0 <= nb,
                0 <= nc,
        {
            assert(na * db * dc < nb * da * dc) by {
                assert((nb * da - na * db) * dc > 0);
                assert((nb * da - na * db) * dc == nb * da * dc - na * db * dc);
            }
            assert(nb * dc * da <= nc * db * da) by {
                assert((nc * db - nb * dc) * da >= 0);
                assert((nc * db - nb * dc) * da == nc * db * da - nb * dc * da);
            }
            assert(nb * da * dc == nb * dc * da);
            assert(na * db * dc == (na * dc) * db);
            assert(nc * db * da == (nc * da) * db);
            if na * dc >= nc * da {
                assert((na * dc) * db >= (nc * da) * db);
            }
        }
    }
}

/// The boundary that the ray crosses next is crossed no later than the next
/// boundary of any axis.
pub proof fn lemma_next_is_least(s: RayState, reach: Vec3i)
    requires
        0 <= s.tx && 0 <= s.ty && 0 <= s.tz,
    ensures
        !sooner(
            s.tx,
            magnitude(reach.x),
            distance(s, next_axis(s, reach)),
            reach_along(reach, next_axis(s, reach)),
        ),
        !sooner(
            s.ty,
            magnitude(reach.y),
            distance(s, next_axis(s, reach)),
            reach_along(reach, next_axis(s, reach)),
        ),
        !sooner(
            s.tz,
            magnitude(reach.z),
            distance(s, next_axis(s, reach)),
            reach_along(reach, next_axis(s, reach)),
        ),
{
    let dx = magnitude(reach.x);
    let dy = magnitude(reach.y);
    let dz = magnitude(reach.z);
    if sooner(s.tx, dx, s.ty, dy) {
        if sooner(s.tx, dx, s.tz, dz) {
            lemma_sooner_asymmetric(s.tx, dx, s.ty, dy);
            lemma_sooner_asymmetric(s.tx, dx, s.tz, dz);
        } else {
            if sooner(s.ty, dy, s.tz, dz) {
                lemma_sooner_chain(s.tx, dx, s.ty, dy, s.tz, dz);
            }
        }
    } else {
        if sooner(s.ty, dy, s.tz, dz) {
            lemma_sooner_asymmetric(s.ty, dy, s.tz, dz);
        } else {
            if sooner(s.tx, dx, s.tz, dz) {
                lemma_sooner_carries(s.tx, dx, s.tz, dz, s.ty, dy);
            }
        }
    }
}

/// The boundary that the ray crosses next lies within the first voxel or
/// within the ray, as long as the traversal has just begun or is not
/// exhausted.
pub proof fn lemma_next_within(s: RayState, reach: Vec3i)
    requires
        bounded(s, reach),
        near(s) || !exhausted(s, reach),
    ensures
        distance(s, next_axis(s, reach)) <= span(reach_along(reach, next_axis(s, reach))),
        !exhausted(s, reach) ==> reach_along(reach, next_axis(s, reach)) > 0 && distance(
            s,
            next_axis(s, reach),
        ) <= reach_along(reach, next_axis(s, reach)),
{
    let dx = magnitude(reach.x);
    let dy = magnitude(reach.y);
    let dz = magnitude(reach.z);
    if !exhausted(s, reach) {
        let p = next_axis(s, reach);
        lemma_next_is_least(s, reach);
        if !beyond(s.tx, dx) {
            lemma_not_later_within(distance(s, p), reach_along(reach, p), s.tx, dx);
        } else if !beyond(s.ty, dy) {
            lemma_not_later_within(distance(s, p), reach_along(reach, p), s.ty, dy);
        } else {
            lemma_not_later_within(distance(s, p), reach_along(reach, p), s.tz, dz);
        }
    }
}

/// Of two boundaries, at most one is crossed before the other.
pub proof fn lemma_sooner_asymmetric(na: int, da: int, nb: int, db: int)
    requires
        0 <= na && 0 <= nb,
        0 <= da && 0 <= db,
        sooner(na, da, nb, db),
    ensures
        !sooner(nb, db, na, da),
{
}

/// What is crossed before a second boundary that is crossed before a third
/// is crossed before the third.
pub proof fn lemma_sooner_chain(na: int, da: int, nb: int, db: int, nc: int, dc: int)
    requires
        0 <= na && 0 <= nb && 0 <= nc,
        0 <= da && 0 <= db && 0 <= dc,
        sooner(na, da, nb, db),
        sooner(nb, db, nc, dc),
    ensures
        sooner(na, da, nc, dc),
{
    lemma_sooner_asymmetric(nb, db, nc, dc);
    lemma_sooner_carries(na, da, nb, db, nc, dc);
}

/// The length of a reach along one axis.
fn length_of(d: i64) -> (m: u64)
    ensures
        m == magnitude(d),
        m <= 0x8000_0000_0000_0000,
{
    if d >= 0 {
        d as u64
    } else if d == i64::MIN {
        0x8000_0000_0000_0000u64
    } else {
        (-d) as u64
    }
}

/// Whether the boundary at distance `na` along an axis of reach `da` is
/// crossed before the boundary at distance `nb` along an axis of reach `db`.
fn crossed_sooner(na: u64, da: u64, nb: u64, db: u64) -> (b: bool)
    ensures
        b == sooner(na as int, da as int, nb as int, db as int),
{
    if da == 0 {
        false
    } else if db == 0 {
        true
    } else {
        assert(na * db <= 0xffff_ffff_ffff_ffff * 0xffff_ffff_ffff_ffff) by (nonlinear_arith)
            requires
                0 <= na <= 0xffff_ffff_ffff_ffff,
                0 <= db <= 0xffff_ffff_ffff_ffff,
        ;
        assert(nb * da <= 0xffff_ffff_ffff_ffff * 0xffff_ffff_ffff_ffff) by (nonlinear_arith)
            requires
                0 <= nb <= 0xffff_ffff_ffff_ffff,
                0 <= da <= 0xffff_ffff_ffff_ffff,
        ;
        (na as u128) * (db as u128) < (nb as u128) * (da as u128)
    }
}

/// The coordinate `v` moved by one voxel in the direction of the reach `d`,
/// if that can be represented.
fn step_coord(v: i32, d: i64) -> (r: Option<i32>)
    ensures
        match r {
            Some(w) => w == v + step_of(d),
            None => !(i32::MIN <= v + step_of(d) <= i32::MAX),
        },
{
    if d > 0 {
        if v == i32::MAX {
            None
        } else {
            Some(v + 1)
        }
    } else if d < 0 {
        if v == i32::MIN {
            None
        } else {
            Some(v - 1)
        }
    } else {
        Some(v)
    }
}

/// The voxels that the ray from `start_point` over `reach` passes through,
/// from the nearest to the farthest: first the voxel of `start_point`, then
/// each voxel that the ray enters as it crosses the nearest voxel boundary
/// again and again. The traversal ends when the next boundary of every axis
/// lies beyond the end of the ray, and lists at most three voxels for each
/// voxel of `range`.
pub fn get_intersected_voxels(start_point: &RayPoint, reach: &Vec3i, range: u32) -> (intersected:
    Vec<VoxelPos>)
    ensures
        intersected@ == ray_voxels(*start_point, *reach, 3 * range),
        intersected@.len() >= 1,
        intersected@[0] == start_point.voxel,
        intersected@.len() <= 3 * range || intersected@.len() == 1,
{
    traverse(start_point, reach, 3 * (range as u64))
}

/// The voxels that the ray from `start_point` over `reach` passes through,
/// from the nearest to the farthest, at most `cap` of them but always the
/// voxel of `start_point`.
pub fn traverse(start_point: &RayPoint, reach: &Vec3i, cap: u64) -> (intersected: Vec<VoxelPos>)
    ensures
        intersected@ == ray_voxels(*start_point, *reach, cap as int),
        intersected@.len() >= 1,
        intersected@[0] == start_point.voxel,
        intersected@.len() <= cap || intersected@.len() == 1,
{
    let dx = length_of(reach.x);
    let dy = length_of(reach.y);
    let dz = length_of(reach.z);
    let mut tx: u64 = if reach.x > 0 {
        65536 - start_point.x as u64
    } else {
        start_point.x as u64
    };
    let mut ty: u64 = if reach.y > 0 {
        65536 - start_point.y as u64
    } else {
        start_point.y as u64
    };
    let mut tz: u64 = if reach.z > 0 {
        65536 - start_point.z as u64
    } else {
        start_point.z as u64
    };
    let mut current_voxel = start_point.voxel;
    let mut intersected: Vec<VoxelPos> = Vec::new();
    intersected.push(start_point.voxel);
    let mut done = false;
    let ghost mut s = start_state(*start_point, *reach);
    proof {
        assert(intersected@ =~= seq![start_point.voxel]);
    }
    while !done && (intersected.len() as u64) < cap
        invariant
            dx == magnitude(reach.x),
            dy == magnitude(reach.y),
            dz == magnitude(reach.z),
            s == (RayState { voxel: current_voxel, tx: tx as int, ty: ty as int, tz: tz as int }),
            bounded(s, *reach),
            done || near(s) || !exhausted(s, *reach),
            intersected@.len() >= 1,
            intersected@[0] == start_point.voxel,
            intersected@.len() <= cap || intersected@.len() == 1,
            done ==> intersected@ == ray_voxels(*start_point, *reach, cap as int),
            !done ==> trace(s, *reach, intersected@, cap as int) == ray_voxels(
                *start_point,
                *reach,
                cap as int,
            ),
        decreases (if done { 0int } else { 1int }), cap - intersected.len(),
    {
        proof {
            lemma_next_within(s, *reach);
        }
        let x_first = crossed_sooner(tx, dx, ty, dy);
        let axis = if x_first {
            if crossed_sooner(tx, dx, tz, dz) {
                Axis::X
            } else {
                Axis::Z
            }
        } else {
            if crossed_sooner(ty, dy, tz, dz) {
                Axis::Y
            } else {
                Axis::Z
            }
        };
        assert(axis == next_axis(s, *reach));
        let moved = match axis {
            Axis::X => step_coord(current_voxel.x, reach.x),
            Axis::Y => step_coord(current_voxel.y, reach.y),
            Axis::Z => step_coord(current_voxel.z, reach.z),
        };
        match moved {
            None => {
                assert(!can_step(s, *reach, axis));
                done = true;
            },
            Some(coord) => {
                assert(can_step(s, *reach, axis));
                match axis {
                    Axis::X => {
                        current_voxel = VoxelPos { x: coord, y: current_voxel.y, z: current_voxel.z };
                        tx = tx + 65536;
                    },
                    Axis::Y => {
                        current_voxel = VoxelPos { x: current_voxel.x, y: coord, z: current_voxel.z };
                        ty = ty + 65536;
                    },
                    Axis::Z => {
                        current_voxel = VoxelPos { x: current_voxel.x, y: current_voxel.y, z: coord };
                        tz = tz + 65536;
                    },
                }
                let ghost next = stepped(s, *reach, axis);
                assert(next == (RayState {
                    voxel: current_voxel,
                    tx: tx as int,
                    ty: ty as int,
                    tz: tz as int,
                }));
                let past_end = (dx == 0 || tx > dx) && (dy == 0 || ty > dy) && (dz == 0 || tz > dz);
                assert(past_end == exhausted(next, *reach));
                proof {
                    s = next;
                }
                if past_end {
                    done = true;
                } else {
                    intersected.push(current_voxel);
                }
            },
        }
    }
    intersected
}

} // verus!
