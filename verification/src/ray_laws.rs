//! What holds of every traversal of the voxel grid along a ray.

use crate::coords::VoxelPos;
use crate::mesh::Vec3i;
use crate::raycast::{
    beyond, can_step, distance, exhausted, lemma_next_is_least, lemma_not_later_within, magnitude,
    next_axis, ray_voxels, reach_along, sooner, start_state, stepped, trace, Axis, RayPoint,
    RayState,
};
use vstd::prelude::*;

verus! {

/// How far a ray has moved along an axis of reach `d` after `i` steps along
/// that axis, in voxels.
pub open spec fn moved(i: int, d: i64) -> int {
    if d > 0 {
        i
    } else if d < 0 {
        -i
    } else {
        0
    }
}

/// Whether `voxel` is the voxel `i` steps from `start` along `axis` in the
/// direction of `reach`.
pub open spec fn on_axis(voxel: VoxelPos, start: VoxelPos, reach: Vec3i, axis: Axis, i: int) -> bool {
    match axis {
        Axis::X => voxel.x == start.x + moved(i, reach.x) && voxel.y == start.y && voxel.z
            == start.z,
        Axis::Y => voxel.x == start.x && voxel.y == start.y + moved(i, reach.y) && voxel.z
            == start.z,
        Axis::Z => voxel.x == start.x && voxel.y == start.y && voxel.z == start.z + moved(
            i,
            reach.z,
        ),
    }
}

/// Whether `reach` has no part along the two axes other than `axis`.
pub open spec fn axis_aligned(reach: Vec3i, axis: Axis) -> bool {
    match axis {
        Axis::X => reach.y == 0 && reach.z == 0,
        Axis::Y => reach.x == 0 && reach.z == 0,
        Axis::Z => reach.x == 0 && reach.y == 0,
    }
}

/// Whether two voxels share a face: they differ by one along one axis.
pub open spec fn adjacent(a: VoxelPos, b: VoxelPos) -> bool {
    ||| (a.y == b.y && a.z == b.z && (a.x - b.x == 1 || b.x - a.x == 1))
    ||| (a.x == b.x && a.z == b.z && (a.y - b.y == 1 || b.y - a.y == 1))
    ||| (a.x == b.x && a.y == b.y && (a.z - b.z == 1 || b.z - a.z == 1))
}

proof fn lemma_trace_on_axis(
    s: RayState,
    reach: Vec3i,
    out: Seq<VoxelPos>,
    cap: int,
    axis: Axis,
    start: VoxelPos,
)
    requires
        axis_aligned(reach, axis),
        out.len() >= 1,
        s.voxel == out.last(),
        forall|i: int| 0 <= i < out.len() ==> on_axis(#[trigger] out[i], start, reach, axis, i),
    ensures
        forall|i: int|
            0 <= i < trace(s, reach, out, cap).len() ==> on_axis(
                #[trigger] trace(s, reach, out, cap)[i],
                start,
                reach,
                axis,
                i,
            ),
    decreases cap - out.len(),
{
    let t = trace(s, reach, out, cap);
    let p = next_axis(s, reach);
    let next = stepped(s, reach, p);
    if out.len() < cap && can_step(s, reach, p) && !exhausted(next, reach) {
        assert(p == axis);
        let longer = out.push(next.voxel);
        assert(t == trace(next, reach, longer, cap));
        assert(on_axis(out[out.len() - 1], start, reach, axis, out.len() - 1));
        assert forall|i: int| 0 <= i < longer.len() implies on_axis(
            #[trigger] longer[i],
            start,
            reach,
            axis,
            i,
        ) by {
            if i < out.len() {
                assert(longer[i] == out[i]);
            }
        }
        lemma_trace_on_axis(next, reach, longer, cap, axis, start);
    } else {
        assert(t == out);
    }
}

proof fn lemma_trace_on_axis_len(
    s: RayState,
    reach: Vec3i,
    out: Seq<VoxelPos>,
    cap: int,
    axis: Axis,
    first: int,
)
    requires
        axis_aligned(reach, axis),
        out.len() >= 1,
        0 <= first,
        distance(s, axis) == first + 65536 * (out.len() - 1),
    ensures
        trace(s, reach, out, cap).len() <= out.len() || trace(s, reach, out, cap).len()
            <= reach_along(reach, axis) / 65536 + 1,
    decreases cap - out.len(),
{
    let t = trace(s, reach, out, cap);
    let p = next_axis(s, reach);
    let next = stepped(s, reach, p);
    if out.len() < cap && can_step(s, reach, p) && !exhausted(next, reach) {
        assert(p == axis);
        let longer = out.push(next.voxel);
        assert(t == trace(next, reach, longer, cap));
        assert(distance(next, axis) == first + 65536 * out.len());
        assert(distance(next, axis) <= reach_along(reach, axis));
        assert(out.len() <= reach_along(reach, axis) / 65536);
        lemma_trace_on_axis_len(next, reach, longer, cap, axis, first);
    } else {
        assert(t == out);
    }
}

/// A ray along one axis passes through the voxels along that axis in their
/// order: where the reach has no part along two of the axes, the voxel at
/// place `i` of the traversal lies `i` voxels from the first along the third
/// axis, in the direction of the reach. The traversal lists at most one
/// voxel more than the reach has whole voxels.
pub proof fn lemma_axis_aligned_ray(start: RayPoint, reach: Vec3i, cap: int, axis: Axis)
    requires
        axis_aligned(reach, axis),
    ensures
        forall|i: int|
            0 <= i < ray_voxels(start, reach, cap).len() ==> on_axis(
                #[trigger] ray_voxels(start, reach, cap)[i],
                start.voxel,
                reach,
                axis,
                i,
            ),
        ray_voxels(start, reach, cap).len() <= reach_along(reach, axis) / 65536 + 1,
{
    let s = start_state(start, reach);
    lemma_trace_on_axis(s, reach, seq![start.voxel], cap, axis, start.voxel);
    lemma_trace_on_axis_len(s, reach, seq![start.voxel], cap, axis, distance(s, axis));
}

proof fn lemma_trace_reaches(
    s: RayState,
    reach: Vec3i,
    out: Seq<VoxelPos>,
    cap: int,
    axis: Axis,
    first: int,
    from: int,
    n: int,
)
    requires
        axis_aligned(reach, axis),
        reach_along(reach, axis) > 0,
        1 <= out.len() <= n <= cap,
        0 <= first,
        distance(s, axis) == first + 65536 * (out.len() - 1),
        first + 65536 * (n - 1) <= reach_along(reach, axis),
        coord(s.voxel, axis) == from + moved(out.len() - 1, part(reach, axis) as i64),
        i32::MIN <= from <= i32::MAX,
        i32::MIN <= from + moved(n - 1, part(reach, axis) as i64) <= i32::MAX,
    ensures
        trace(s, reach, out, cap).len() >= n,
    decreases n - out.len(),
{
    let t = trace(s, reach, out, cap);
    if out.len() < n {
        let p = next_axis(s, reach);
        assert(p == axis);
        assert(can_step(s, reach, p));
        let next = stepped(s, reach, p);
        assert(distance(next, axis) == first + 65536 * out.len());
        assert(!exhausted(next, reach));
        let longer = out.push(next.voxel);
        assert(t == trace(next, reach, longer, cap));
        lemma_trace_reaches(next, reach, longer, cap, axis, first, from, n);
    } else {
        lemma_trace_extends(s, reach, out, cap);
    }
}

/// A traversal keeps the voxels that it has listed.
proof fn lemma_trace_extends(s: RayState, reach: Vec3i, out: Seq<VoxelPos>, cap: int)
    ensures
        trace(s, reach, out, cap).len() >= out.len(),
    decreases cap - out.len(),
{
    let p = next_axis(s, reach);
    let next = stepped(s, reach, p);
    if out.len() < cap && can_step(s, reach, p) && !exhausted(next, reach) {
        lemma_trace_extends(next, reach, out.push(next.voxel), cap);
    }
}

/// A ray along one axis goes as far as its reach: it lists `n` voxels where
/// the cap allows as many, the boundary behind the last of them lies within
/// the ray, and the last of them has coordinates that can be represented.
/// So a ray that starts inside a voxel and reaches over `r` whole voxels
/// lists at least `r` voxels, and by the law above at most `r + 1`.
pub proof fn lemma_axis_aligned_ray_reaches(
    start: RayPoint,
    reach: Vec3i,
    cap: int,
    axis: Axis,
    n: int,
)
    requires
        axis_aligned(reach, axis),
        reach_along(reach, axis) > 0,
        1 <= n <= cap,
        distance(start_state(start, reach), axis) + 65536 * (n - 1) <= reach_along(reach, axis),
        i32::MIN <= coord(start.voxel, axis) + moved(n - 1, part(reach, axis) as i64) <= i32::MAX,
    ensures
        ray_voxels(start, reach, cap).len() >= n,
{
    let s = start_state(start, reach);
    lemma_trace_reaches(
        s,
        reach,
        seq![start.voxel],
        cap,
        axis,
        distance(s, axis),
        coord(start.voxel, axis),
        n,
    );
}

proof fn lemma_trace_adjacent(s: RayState, reach: Vec3i, out: Seq<VoxelPos>, cap: int)
    requires
        out.len() >= 1,
        s.voxel == out.last(),
        forall|i: int| 0 < i < out.len() ==> adjacent(out[i - 1], #[trigger] out[i]),
    ensures
        forall|i: int|
            0 < i < trace(s, reach, out, cap).len() ==> adjacent(
                trace(s, reach, out, cap)[i - 1],
                #[trigger] trace(s, reach, out, cap)[i],
            ),
    decreases cap - out.len(),
{
    let t = trace(s, reach, out, cap);
    let p = next_axis(s, reach);
    let next = stepped(s, reach, p);
    if out.len() < cap && can_step(s, reach, p) && !exhausted(next, reach) {
        assert(reach_along(reach, p) != 0);
        let longer = out.push(next.voxel);
        assert(t == trace(next, reach, longer, cap));
        assert(adjacent(out[out.len() - 1], next.voxel));
        assert forall|i: int| 0 < i < longer.len() implies adjacent(
            longer[i - 1],
            #[trigger] longer[i],
        ) by {
            if i < out.len() {
                assert(longer[i] == out[i]);
                assert(longer[i - 1] == out[i - 1]);
            }
        }
        lemma_trace_adjacent(next, reach, longer, cap);
    } else {
        assert(t == out);
    }
}

/// A traversal moves from voxel to voxel through faces: each voxel of the
/// traversal but the first shares a face with the voxel before it.
pub proof fn lemma_ray_steps_through_faces(start: RayPoint, reach: Vec3i, cap: int)
    ensures
        forall|i: int|
            0 < i < ray_voxels(start, reach, cap).len() ==> adjacent(
                ray_voxels(start, reach, cap)[i - 1],
                #[trigger] ray_voxels(start, reach, cap)[i],
            ),
{
    lemma_trace_adjacent(start_state(start, reach), reach, seq![start.voxel], cap);
}

/// A coordinate of a voxel.
pub open spec fn coord(voxel: VoxelPos, axis: Axis) -> int {
    match axis {
        Axis::X => voxel.x as int,
        Axis::Y => voxel.y as int,
        Axis::Z => voxel.z as int,
    }
}

/// The part of a reach along an axis.
pub open spec fn part(reach: Vec3i, axis: Axis) -> int {
    match axis {
        Axis::X => reach.x as int,
        Axis::Y => reach.y as int,
        Axis::Z => reach.z as int,
    }
}

/// A coordinate of the start of a ray, in position units.
pub open spec fn start_along(start: RayPoint, axis: Axis) -> int {
    match axis {
        Axis::X => start.voxel.x * 65536 + start.x,
        Axis::Y => start.voxel.y * 65536 + start.y,
        Axis::Z => start.voxel.z * 65536 + start.z,
    }
}

/// Whether the point of a ray at the fraction `n / d` of its reach lies
/// between the two sides of the voxels with the coordinate `v`, sides
/// included, along an axis on which the ray starts at `from` and reaches
/// over `reach`.
pub open spec fn within_along(v: int, from: int, reach: int, n: int, d: int) -> bool {
    let low = v * 65536;
    let high = (v + 1) * 65536;
    low * d <= from * d + n * reach <= high * d
}

/// Whether the point of the ray at the fraction `n / d` of its reach lies in
/// `voxel`, sides included.
pub open spec fn meets_at(voxel: VoxelPos, start: RayPoint, reach: Vec3i, n: int, d: int) -> bool {
    &&& 0 <= n <= d
    &&& 0 < d
    &&& within_along(coord(voxel, Axis::X), start_along(start, Axis::X), part(reach, Axis::X), n, d)
    &&& within_along(coord(voxel, Axis::Y), start_along(start, Axis::Y), part(reach, Axis::Y), n, d)
    &&& within_along(coord(voxel, Axis::Z), start_along(start, Axis::Z), part(reach, Axis::Z), n, d)
}

/// Whether some point of the ray from `start` over `reach` lies in `voxel`,
/// sides included.
pub open spec fn ray_meets(voxel: VoxelPos, start: RayPoint, reach: Vec3i) -> bool {
    exists|n: int, d: int| meets_at(voxel, start, reach, n, d)
}

/// Whether the distance `t` of a state is the distance from the start of
/// the ray to the side of the state's voxel that the ray moves towards,
/// along an axis on which the voxel has the coordinate `v`.
pub open spec fn tracks(v: int, t: int, from: int, first: int, reach: int) -> bool {
    if reach > 0 {
        t == (v + 1) * 65536 - from
    } else if reach < 0 {
        t == from - v * 65536
    } else {
        v == first
    }
}

/// Whether the distances of `s` are those from the start of the ray to the
/// sides of the voxel of `s`.
pub open spec fn follows(s: RayState, start: RayPoint, reach: Vec3i) -> bool {
    &&& 0 <= s.tx && 0 <= s.ty && 0 <= s.tz
    &&& tracks(s.voxel.x as int, s.tx, start_along(start, Axis::X), start.voxel.x as int, reach.x as int)
    &&& tracks(s.voxel.y as int, s.ty, start_along(start, Axis::Y), start.voxel.y as int, reach.y as int)
    &&& tracks(s.voxel.z as int, s.tz, start_along(start, Axis::Z), start.voxel.z as int, reach.z as int)
}

/// Whether the ray has entered the voxel of a state along one axis no later
/// than it leaves it along another: the side behind the boundary at
/// distance `ta` is crossed no later than the boundary at distance `tb`.
pub open spec fn entered(ta: int, da: int, tb: int, db: int) -> bool {
    da > 0 && db > 0 ==> (ta - 65536) * db <= tb * da
}

/// Whether the ray has entered the voxel of `s` along every axis no later
/// than it leaves it along any other.
pub open spec fn settled(s: RayState, reach: Vec3i) -> bool {
    let dx = magnitude(reach.x);
    let dy = magnitude(reach.y);
    let dz = magnitude(reach.z);
    &&& entered(s.tx, dx, s.ty, dy)
    &&& entered(s.tx, dx, s.tz, dz)
    &&& entered(s.ty, dy, s.tx, dx)
    &&& entered(s.ty, dy, s.tz, dz)
    &&& entered(s.tz, dz, s.tx, dx)
    &&& entered(s.tz, dz, s.ty, dy)
}

/// Where the ray crosses a boundary of an axis, it lies on the near side of
/// the voxel behind that boundary.
proof fn lemma_crossing_within(v: int, from: int, reach: int, t: int, d: int)
    requires
        d > 0,
        reach == d || reach == -d,
        tracks(v, t, from, v, reach),
    ensures
        reach > 0 ==> within_along(v + 1, from, reach, t, d),
        reach < 0 ==> within_along(v - 1, from, reach, t, d),
{
    if reach > 0 {
        let low = (v + 1) * 65536;
        let high = (v + 1 + 1) * 65536;
        assert(from * d + t * reach == low * d) by (nonlinear_arith)
            requires
                reach == d,
                from + t == low,
        ;
        assert(low * d <= high * d) by (nonlinear_arith)
            requires
                low <= high,
                d > 0,
        ;
    } else {
        let low = (v - 1) * 65536;
        let high = (v - 1 + 1) * 65536;
        assert(from * d + t * reach == high * d) by (nonlinear_arith)
            requires
                reach == -d,
                from - t == high,
        ;
        assert(low * d <= high * d) by (nonlinear_arith)
            requires
                low <= high,
                d > 0,
        ;
    }
}

/// Where the ray crosses a boundary of one axis, it lies between the sides
/// of its voxel along every other axis: it has entered the voxel along that
/// axis before, and does not leave it sooner.
proof fn lemma_beside_within(v: int, from: int, first: int, off: int, reach: int, ta: int, da: int, tp: int, dp: int)
    requires
        dp > 0,
        0 <= tp,
        0 <= off < 65536,
        from == first * 65536 + off,
        da == reach || da == -reach,
        da >= 0,
        tracks(v, ta, from, first, reach),
        !sooner(ta, da, tp, dp),
        entered(ta, da, tp, dp),
    ensures
        within_along(v, from, reach, tp, dp),
{
    let low = v * 65536;
    let high = (v + 1) * 65536;
    if reach > 0 {
        assert(from * dp + tp * reach <= high * dp) by (nonlinear_arith)
            requires
                tp * da <= ta * dp,
                reach == da,
                from + ta == high,
        ;
        assert(low * dp <= from * dp + tp * reach) by (nonlinear_arith)
            requires
                (ta - 65536) * dp <= tp * da,
                reach == da,
                from + ta - 65536 == low,
        ;
    } else if reach < 0 {
        assert(low * dp <= from * dp + tp * reach) by (nonlinear_arith)
            requires
                tp * da <= ta * dp,
                reach == -da,
                from - ta == low,
        ;
        assert(from * dp + tp * reach <= high * dp) by (nonlinear_arith)
            requires
                (ta - 65536) * dp <= tp * da,
                reach == -da,
                from - ta + 65536 == high,
        ;
    } else {
        assert(tp * reach == 0) by (nonlinear_arith)
            requires
                reach == 0,
        ;
        assert(low * dp <= from * dp && from * dp <= high * dp) by (nonlinear_arith)
            requires
                low <= from,
                from <= high,
                dp > 0,
        ;
    }
}

/// The state after a step follows the ray and is settled like the state
/// before it.
proof fn lemma_step_keeps_track(s: RayState, start: RayPoint, reach: Vec3i)
    requires
        follows(s, start, reach),
        settled(s, reach),
        can_step(s, reach, next_axis(s, reach)),
    ensures
        follows(stepped(s, reach, next_axis(s, reach)), start, reach),
        settled(stepped(s, reach, next_axis(s, reach)), reach),
{
    let p = next_axis(s, reach);
    let next = stepped(s, reach, p);
    let dx = magnitude(reach.x);
    let dy = magnitude(reach.y);
    let dz = magnitude(reach.z);
    lemma_next_is_least(s, reach);
    match p {
        Axis::X => {
            lemma_entered_after_step(s.tx, dx, s.ty, dy);
            lemma_entered_after_step(s.tx, dx, s.tz, dz);
        },
        Axis::Y => {
            lemma_entered_after_step(s.ty, dy, s.tx, dx);
            lemma_entered_after_step(s.ty, dy, s.tz, dz);
        },
        Axis::Z => {
            lemma_entered_after_step(s.tz, dz, s.tx, dx);
            lemma_entered_after_step(s.tz, dz, s.ty, dy);
        },
    }
}

/// After a step along an axis whose boundary was crossed no later than that
/// of another axis, the ray has entered the new voxel along the first axis
/// no later than it leaves it along the other, and the other way round.
proof fn lemma_entered_after_step(tp: int, dp: int, ta: int, da: int)
    requires
        0 <= tp,
        0 <= ta,
        0 <= dp,
        0 <= da,
        !sooner(ta, da, tp, dp),
        entered(ta, da, tp, dp),
    ensures
        entered(tp + 65536, dp, ta, da),
        entered(ta, da, tp + 65536, dp),
{
    if da > 0 && dp > 0 {
        assert((tp + 65536 - 65536) * da <= ta * dp) by (nonlinear_arith)
            requires
                tp * da <= ta * dp,
        ;
        assert((ta - 65536) * dp <= (tp + 65536) * da) by (nonlinear_arith)
            requires
                (ta - 65536) * dp <= tp * da,
                da > 0,
        ;
    }
}

/// The voxel that a step leads into is met by the ray where the ray crosses
/// the boundary, as long as that boundary lies within the ray.
proof fn lemma_step_meets(s: RayState, start: RayPoint, reach: Vec3i)
    requires
        follows(s, start, reach),
        settled(s, reach),
        can_step(s, reach, next_axis(s, reach)),
        reach_along(reach, next_axis(s, reach)) > 0,
        distance(s, next_axis(s, reach)) <= reach_along(reach, next_axis(s, reach)),
    ensures
        meets_at(
            stepped(s, reach, next_axis(s, reach)).voxel,
            start,
            reach,
            distance(s, next_axis(s, reach)),
            reach_along(reach, next_axis(s, reach)),
        ),
{
    let p = next_axis(s, reach);
    let next = stepped(s, reach, p);
    let tp = distance(s, p);
    let dp = reach_along(reach, p);
    let dx = magnitude(reach.x);
    let dy = magnitude(reach.y);
    let dz = magnitude(reach.z);
    let fx = start_along(start, Axis::X);
    let fy = start_along(start, Axis::Y);
    let fz = start_along(start, Axis::Z);
    lemma_next_is_least(s, reach);
    match p {
        Axis::X => {
            lemma_crossing_within(s.voxel.x as int, fx, reach.x as int, tp, dp);
            lemma_beside_within(s.voxel.y as int, fy, start.voxel.y as int, start.y as int, reach.y as int, s.ty, dy, tp, dp);
            lemma_beside_within(s.voxel.z as int, fz, start.voxel.z as int, start.z as int, reach.z as int, s.tz, dz, tp, dp);
        },
        Axis::Y => {
            lemma_beside_within(s.voxel.x as int, fx, start.voxel.x as int, start.x as int, reach.x as int, s.tx, dx, tp, dp);
            lemma_crossing_within(s.voxel.y as int, fy, reach.y as int, tp, dp);
            lemma_beside_within(s.voxel.z as int, fz, start.voxel.z as int, start.z as int, reach.z as int, s.tz, dz, tp, dp);
        },
        Axis::Z => {
            lemma_beside_within(s.voxel.x as int, fx, start.voxel.x as int, start.x as int, reach.x as int, s.tx, dx, tp, dp);
            lemma_beside_within(s.voxel.y as int, fy, start.voxel.y as int, start.y as int, reach.y as int, s.ty, dy, tp, dp);
            lemma_crossing_within(s.voxel.z as int, fz, reach.z as int, tp, dp);
        },
    }
}

proof fn lemma_trace_meets(s: RayState, reach: Vec3i, out: Seq<VoxelPos>, cap: int, start: RayPoint)
    requires
        follows(s, start, reach),
        settled(s, reach),
        forall|i: int| 0 <= i < out.len() ==> ray_meets(#[trigger] out[i], start, reach),
    ensures
        forall|i: int|
            0 <= i < trace(s, reach, out, cap).len() ==> ray_meets(
                #[trigger] trace(s, reach, out, cap)[i],
                start,
                reach,
            ),
    decreases cap - out.len(),
{
    let t = trace(s, reach, out, cap);
    let p = next_axis(s, reach);
    let next = stepped(s, reach, p);
    if out.len() < cap && can_step(s, reach, p) && !exhausted(next, reach) {
        let longer = out.push(next.voxel);
        assert(t == trace(next, reach, longer, cap));
        assert(!exhausted(s, reach));
        lemma_next_is_least(s, reach);
        if !beyond(s.tx, magnitude(reach.x)) {
            lemma_not_later_within(distance(s, p), reach_along(reach, p), s.tx, magnitude(reach.x));
        } else if !beyond(s.ty, magnitude(reach.y)) {
            lemma_not_later_within(distance(s, p), reach_along(reach, p), s.ty, magnitude(reach.y));
        } else {
            lemma_not_later_within(distance(s, p), reach_along(reach, p), s.tz, magnitude(reach.z));
        }
        lemma_step_meets(s, start, reach);
        lemma_step_keeps_track(s, start, reach);
        assert(ray_meets(next.voxel, start, reach));
        assert forall|i: int| 0 <= i < longer.len() implies ray_meets(
            #[trigger] longer[i],
            start,
            reach,
        ) by {
            if i < out.len() {
                assert(longer[i] == out[i]);
            }
        }
        lemma_trace_meets(next, reach, longer, cap, start);
    } else {
        assert(t == out);
    }
}

/// A traversal lists only voxels that the ray passes through: for every
/// voxel of the traversal, some point of the ray, between its start and its
/// end, lies in that voxel or on its sides.
pub proof fn lemma_ray_meets_its_voxels(start: RayPoint, reach: Vec3i, cap: int)
    ensures
        forall|i: int|
            0 <= i < ray_voxels(start, reach, cap).len() ==> ray_meets(
                #[trigger] ray_voxels(start, reach, cap)[i],
                start,
                reach,
            ),
{
    let s = start_state(start, reach);
    let out = seq![start.voxel];
    assert(meets_at(start.voxel, start, reach, 0, 1));
    assert(ray_meets(out[0], start, reach));
    assert(settled(s, reach)) by {
        let dx = magnitude(reach.x);
        let dy = magnitude(reach.y);
        let dz = magnitude(reach.z);
        lemma_entered_at_start(s.tx, dx, s.ty, dy);
        lemma_entered_at_start(s.tx, dx, s.tz, dz);
        lemma_entered_at_start(s.ty, dy, s.tx, dx);
        lemma_entered_at_start(s.ty, dy, s.tz, dz);
        lemma_entered_at_start(s.tz, dz, s.tx, dx);
        lemma_entered_at_start(s.tz, dz, s.ty, dy);
    }
    lemma_trace_meets(s, reach, out, cap, start);
}

/// At its start the ray is in its first voxel along every axis.
proof fn lemma_entered_at_start(ta: int, da: int, tb: int, db: int)
    requires
        0 <= ta <= 65536,
        0 <= tb,
        0 <= da,
        0 <= db,
    ensures
        entered(ta, da, tb, db),
{
    if da > 0 && db > 0 {
        assert((ta - 65536) * db <= tb * da) by (nonlinear_arith)
            requires
                ta - 65536 <= 0,
                0 <= tb,
                0 < da,
                0 < db,
        ;
    }
}

} // verus!
