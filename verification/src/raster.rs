//! Rasterisation of a stroke segment into the recognizer's three input
//! planes (mask, time, direction), with Bresenham's all-octant line walk.

use vstd::prelude::*;

verus! {

/// Absolute value.
pub open spec fn abs(a: int) -> int {
    if a < 0 {
        -a
    } else {
        a
    }
}

/// The direction in which the walk moves along one axis.
pub open spec fn step_dir(from: int, to: int) -> int {
    if from < to {
        1
    } else {
        -1
    }
}

/// One step of the walk from `(x, y)` with error term `err`: the new
/// horizontal position.
pub open spec fn walk_next_x(x: int, err: int, dy: int, sx: int) -> int {
    if 2 * err >= dy {
        x + sx
    } else {
        x
    }
}

/// One step of the walk: the new vertical position.
pub open spec fn walk_next_y(y: int, err: int, dx: int, sy: int) -> int {
    if 2 * err <= dx {
        y + sy
    } else {
        y
    }
}

/// One step of the walk: the new error term.
pub open spec fn walk_next_err(err: int, dx: int, dy: int) -> int {
    let e1 = if 2 * err >= dy {
        err + dy
    } else {
        err
    };
    if 2 * err <= dx {
        e1 + dx
    } else {
        e1
    }
}

/// The points that the walk visits from `(x, y)` with error term `err`
/// towards `(x1, y1)`, stopping at `(x1, y1)` or after `fuel` steps.
pub open spec fn line_walk(
    x: int,
    y: int,
    err: int,
    x1: int,
    y1: int,
    dx: int,
    dy: int,
    sx: int,
    sy: int,
    fuel: nat,
) -> Seq<(int, int)>
    decreases fuel,
{
    if (x == x1 && y == y1) || fuel == 0 {
        seq![(x, y)]
    } else {
        seq![(x, y)] + line_walk(
            walk_next_x(x, err, dy, sx),
            walk_next_y(y, err, dx, sy),
            walk_next_err(err, dx, dy),
            x1,
            y1,
            dx,
            dy,
            sx,
            sy,
            (fuel - 1) as nat,
        )
    }
}

/// The points of the line from `(x0, y0)` to `(x1, y1)` that Bresenham's
/// walk visits, in order.
pub open spec fn line_points(x0: int, y0: int, x1: int, y1: int) -> Seq<(int, int)> {
    let dx = abs(x1 - x0);
    let dy = -abs(y1 - y0);
    line_walk(
        x0,
        y0,
        dx + dy,
        x1,
        y1,
        dx,
        dy,
        step_dir(x0, x1),
        step_dir(y0, y1),
        (dx - dy) as nat,
    )
}

/// The point lies on a canvas of `w` by `h` pixels.
pub open spec fn in_canvas(p: (int, int), w: int, h: int) -> bool {
    0 <= p.0 < w && 0 <= p.1 < h
}

/// The row-major index of a point on a canvas `w` pixels wide.
pub open spec fn pixel_index(p: (int, int), w: int) -> int {
    p.1 * w + p.0
}

/// Some point of `pts` lies on the canvas at index `k`.
pub open spec fn covers(pts: Seq<(int, int)>, w: int, h: int, k: int) -> bool {
    exists|i: int| 0 <= i < pts.len() && in_canvas(pts[i], w, h) && pixel_index(#[trigger] pts[i], w) == k
}

/// The planes after drawing the points `pts`: in each of the three planes
/// of `w * h` values, the pixels of the points that lie on the canvas take
/// that plane's value; all other values stay.
pub open spec fn drawn<T>(
    planes: Seq<T>,
    pts: Seq<(int, int)>,
    w: int,
    h: int,
    v_mask: T,
    v_time: T,
    v_angle: T,
) -> Seq<T> {
    let area = w * h;
    Seq::new(
        planes.len(),
        |k: int|
            if 0 <= k < area && covers(pts, w, h, k) {
                v_mask
            } else if area <= k < 2 * area && covers(pts, w, h, k - area) {
                v_time
            } else if 2 * area <= k < 3 * area && covers(pts, w, h, k - 2 * area) {
                v_angle
            } else {
                planes[k]
            },
    )
}

/// The state of the walk after `i` horizontal and `j` vertical steps from
/// `(x0, y0)` towards `(x1, y1)`.
pub open spec fn walk_state(
    x0: int,
    y0: int,
    x1: int,
    y1: int,
    x: int,
    y: int,
    err: int,
    i: int,
    j: int,
) -> bool {
    let dx = abs(x1 - x0);
    let d = abs(y1 - y0);
    &&& 0 <= i <= dx
    &&& 0 <= j <= d
    &&& x == (if x0 < x1 { x0 + i } else { x0 - i })
    &&& y == (if y0 < y1 { y0 + j } else { y0 - j })
    &&& err == dx * (1 + j) - d * (1 + i)
    &&& -3 * d <= 2 * err <= 3 * dx
}

/// A step from a state short of the end leads to a state one or two unit
/// moves further, without passing the end point on either axis.
proof fn lemma_walk_step(x0: int, y0: int, x1: int, y1: int, x: int, y: int, err: int, i: int, j: int)
    requires
        walk_state(x0, y0, x1, y1, x, y, err, i, j),
        !(x == x1 && y == y1),
    ensures
        ({
            let dx = abs(x1 - x0);
            let dy = -abs(y1 - y0);
            let xs = 2 * err >= dy;
            let ys = 2 * err <= dx;
            &&& xs || ys
            &&& walk_state(
                x0,
                y0,
                x1,
                y1,
                walk_next_x(x, err, dy, step_dir(x0, x1)),
                walk_next_y(y, err, dx, step_dir(y0, y1)),
                walk_next_err(err, dx, dy),
                if xs { i + 1 } else { i },
                if ys { j + 1 } else { j },
            )
        }),
{
    let dx = abs(x1 - x0);
    let d = abs(y1 - y0);
    lemma_walk_level(x0, y0, x1, y1, x, y, err, i, j);
    assert(dx * (1 + (j + 1)) == dx * (1 + j) + dx) by (nonlinear_arith);
    assert(d * (1 + (i + 1)) == d * (1 + i) + d) by (nonlinear_arith);
}

/// Consecutive points of a walk are neighbours: each step moves by at most
/// one pixel on each axis, and moves.
pub open spec fn neighbour_steps(pts: Seq<(int, int)>) -> bool {
    forall|k: int|
        0 <= k < pts.len() - 1 ==> {
            let a = #[trigger] pts[k];
            let b = pts[k + 1];
            &&& abs(b.0 - a.0) <= 1
            &&& abs(b.1 - a.1) <= 1
            &&& a != b
        }
}

/// Every point lies in the box spanned by `(x0, y0)` and `(x1, y1)`.
pub open spec fn within_span(pts: Seq<(int, int)>, x0: int, y0: int, x1: int, y1: int) -> bool {
    forall|k: int|
        0 <= k < pts.len() ==> {
            let p = #[trigger] pts[k];
            &&& (x0 <= p.0 <= x1 || x1 <= p.0 <= x0)
            &&& (y0 <= p.1 <= y1 || y1 <= p.1 <= y0)
        }
}

/// The walk from a valid state, with enough fuel, starts at that state's
/// point, ends at the end point, moves to a neighbouring pixel at each step
/// and stays within the span of the end points.
proof fn lemma_walk_shape(
    x0: int,
    y0: int,
    x1: int,
    y1: int,
    x: int,
    y: int,
    err: int,
    i: int,
    j: int,
    fuel: nat,
)
    requires
        walk_state(x0, y0, x1, y1, x, y, err, i, j),
        fuel >= (abs(x1 - x0) - i) + (abs(y1 - y0) - j),
    ensures
        ({
            let pts = line_walk(
                x,
                y,
                err,
                x1,
                y1,
                abs(x1 - x0),
                -abs(y1 - y0),
                step_dir(x0, x1),
                step_dir(y0, y1),
                fuel,
            );
            &&& pts.len() >= 1
            &&& pts[0] == (x, y)
            &&& pts.last() == (x1, y1)
            &&& neighbour_steps(pts)
            &&& within_span(pts, x0, y0, x1, y1)
        }),
    decreases fuel,
{
    let dx = abs(x1 - x0);
    let dy = -abs(y1 - y0);
    let sx = step_dir(x0, x1);
    let sy = step_dir(y0, y1);
    let pts = line_walk(x, y, err, x1, y1, dx, dy, sx, sy, fuel);
    if !(x == x1 && y == y1) {
        lemma_walk_step(x0, y0, x1, y1, x, y, err, i, j);
        let xs = 2 * err >= dy;
        let ys = 2 * err <= dx;
        let nx = walk_next_x(x, err, dy, sx);
        let ny = walk_next_y(y, err, dx, sy);
        let ne = walk_next_err(err, dx, dy);
        lemma_walk_shape(
            x0,
            y0,
            x1,
            y1,
            nx,
            ny,
            ne,
            if xs { i + 1 } else { i },
            if ys { j + 1 } else { j },
            (fuel - 1) as nat,
        );
        let rest = line_walk(nx, ny, ne, x1, y1, dx, dy, sx, sy, (fuel - 1) as nat);
        assert(pts == seq![(x, y)] + rest);
        assert forall|k: int| 0 <= k < pts.len() - 1 implies {
            let a = #[trigger] pts[k];
            let b = pts[k + 1];
            &&& abs(b.0 - a.0) <= 1
            &&& abs(b.1 - a.1) <= 1
            &&& a != b
        } by {
            if k > 0 {
                assert(pts[k] == rest[k - 1]);
                assert(pts[k + 1] == rest[k]);
            }
        }
        assert forall|k: int| 0 <= k < pts.len() implies {
            let p = #[trigger] pts[k];
            &&& (x0 <= p.0 <= x1 || x1 <= p.0 <= x0)
            &&& (y0 <= p.1 <= y1 || y1 <= p.1 <= y0)
        } by {
            if k > 0 {
                assert(pts[k] == rest[k - 1]);
            }
        }
    }
}

/// The line drawn from `(x0, y0)` to `(x1, y1)` starts at `(x0, y0)`, ends
/// at `(x1, y1)`, has no gaps (each point is a neighbour of the one before)
/// and never leaves the box spanned by its end points.
pub proof fn lemma_line_points_shape(x0: int, y0: int, x1: int, y1: int)
    ensures
        ({
            let pts = line_points(x0, y0, x1, y1);
            &&& pts.len() >= 1
            &&& pts[0] == (x0, y0)
            &&& pts.last() == (x1, y1)
            &&& neighbour_steps(pts)
            &&& within_span(pts, x0, y0, x1, y1)
        }),
{
    let dx = abs(x1 - x0);
    let d = abs(y1 - y0);
    assert(dx * (1 + 0) - d * (1 + 0) == dx - d) by (nonlinear_arith);
    lemma_walk_shape(x0, y0, x1, y1, x0, y0, dx - d, 0, 0, (dx + d) as nat);
}

/// Level with the end on one axis but not the other, the error term rules
/// out a step on the finished axis.
proof fn lemma_walk_level(x0: int, y0: int, x1: int, y1: int, x: int, y: int, err: int, i: int, j: int)
    requires
        walk_state(x0, y0, x1, y1, x, y, err, i, j),
    ensures
        i == abs(x1 - x0) && j < abs(y1 - y0) ==> 2 * err < -abs(y1 - y0),
        j == abs(y1 - y0) && i < abs(x1 - x0) ==> 2 * err > abs(x1 - x0),
{
    let dx = abs(x1 - x0);
    let d = abs(y1 - y0);
    if i == dx && j < d {
        assert(dx * (j - d) <= -dx) by (nonlinear_arith)
            requires
                dx >= 0,
                j - d <= -1,
        ;
        assert(dx * (1 + j) - d * (1 + i) == dx * (j - d) + dx - d) by (nonlinear_arith)
            requires
                i == dx,
        ;
    }
    if j == d && i < dx {
        assert(d * (dx - i) >= d) by (nonlinear_arith)
            requires
                d >= 0,
                dx - i >= 1,
        ;
        assert(dx * (1 + j) - d * (1 + i) == dx - d + d * (dx - i)) by (nonlinear_arith)
            requires
                j == d,
        ;
    }
}

/// Along the major axis the walk moves at every step, so it visits one
/// point per unit of the larger extent, plus the start.
proof fn lemma_walk_len(
    x0: int,
    y0: int,
    x1: int,
    y1: int,
    x: int,
    y: int,
    err: int,
    i: int,
    j: int,
    fuel: nat,
)
    requires
        walk_state(x0, y0, x1, y1, x, y, err, i, j),
        fuel >= (abs(x1 - x0) - i) + (abs(y1 - y0) - j),
        abs(x1 - x0) >= abs(y1 - y0) ==> 2 * err >= -abs(y1 - y0),
        abs(y1 - y0) >= abs(x1 - x0) ==> 2 * err <= abs(x1 - x0),
    ensures
        line_walk(
            x,
            y,
            err,
            x1,
            y1,
            abs(x1 - x0),
            -abs(y1 - y0),
            step_dir(x0, x1),
            step_dir(y0, y1),
            fuel,
        ).len() == if abs(x1 - x0) >= abs(y1 - y0) {
            abs(x1 - x0) - i + 1
        } else {
            abs(y1 - y0) - j + 1
        },
    decreases fuel,
{
    let dx = abs(x1 - x0);
    let d = abs(y1 - y0);
    let dy = -d;
    lemma_walk_level(x0, y0, x1, y1, x, y, err, i, j);
    if !(x == x1 && y == y1) {
        lemma_walk_step(x0, y0, x1, y1, x, y, err, i, j);
        let xs = 2 * err >= dy;
        let ys = 2 * err <= dx;
        let ne = walk_next_err(err, dx, dy);
        lemma_walk_len(
            x0,
            y0,
            x1,
            y1,
            walk_next_x(x, err, dy, step_dir(x0, x1)),
            walk_next_y(y, err, dx, step_dir(y0, y1)),
            ne,
            if xs { i + 1 } else { i },
            if ys { j + 1 } else { j },
            (fuel - 1) as nat,
        );
    }
}

/// The line drawn from `(x0, y0)` to `(x1, y1)` has one point per pixel
/// along its longer axis: `max(|x1 - x0|, |y1 - y0|) + 1` points.
pub proof fn lemma_line_points_len(x0: int, y0: int, x1: int, y1: int)
    ensures
        line_points(x0, y0, x1, y1).len() == if abs(x1 - x0) >= abs(y1 - y0) {
            abs(x1 - x0) + 1
        } else {
            abs(y1 - y0) + 1
        },
{
    let dx = abs(x1 - x0);
    let d = abs(y1 - y0);
    assert(dx * (1 + 0) - d * (1 + 0) == dx - d) by (nonlinear_arith);
    lemma_walk_len(x0, y0, x1, y1, x0, y0, dx - d, 0, 0, (dx + d) as nat);
}

/// The distance of `v` from `from`, counted towards `to`.
pub open spec fn offset_toward(v: int, from: int, to: int) -> int {
    if from < to {
        v - from
    } else {
        from - v
    }
}

/// After `k` steps along a major axis of extent `major`, the walk is `j`
/// steps along the minor axis of extent `minor`: `j` is `k * minor / major`
/// rounded to the nearest integer, halves rounded up.
pub open spec fn rounds_to(k: int, j: int, major: int, minor: int) -> bool {
    2 * major * j <= 2 * minor * k + major < 2 * major * (j + 1)
}

proof fn lemma_rounds_from_err_x(dx: int, d: int, i: int, j: int, err: int)
    requires
        err == dx * (1 + j) - d * (1 + i),
        dx - 2 * d < 2 * err <= 3 * dx - 2 * d,
    ensures
        rounds_to(i, j, dx, d),
{
    assert(2 * dx * j <= 2 * d * i + dx < 2 * dx * (j + 1)) by (nonlinear_arith)
        requires
            err == dx * (1 + j) - d * (1 + i),
            dx - 2 * d < 2 * err <= 3 * dx - 2 * d,
    ;
}

proof fn lemma_rounds_from_err_y(dx: int, d: int, i: int, j: int, err: int)
    requires
        err == dx * (1 + j) - d * (1 + i),
        2 * dx - 3 * d <= 2 * err < 2 * dx - d,
    ensures
        rounds_to(j, i, d, dx),
{
    assert(2 * d * i <= 2 * dx * j + d < 2 * d * (i + 1)) by (nonlinear_arith)
        requires
            err == dx * (1 + j) - d * (1 + i),
            2 * dx - 3 * d <= 2 * err < 2 * dx - d,
    ;
}

/// On a line at most as steep as a diagonal, the walk advances one column
/// per point, and its row is the rounded ideal row.
proof fn lemma_walk_pixels_x(
    x0: int,
    y0: int,
    x1: int,
    y1: int,
    x: int,
    y: int,
    err: int,
    i: int,
    j: int,
    fuel: nat,
)
    requires
        walk_state(x0, y0, x1, y1, x, y, err, i, j),
        fuel >= (abs(x1 - x0) - i) + (abs(y1 - y0) - j),
        abs(x1 - x0) >= abs(y1 - y0),
        abs(x1 - x0) > 0,
        abs(x1 - x0) - 2 * abs(y1 - y0) < 2 * err <= 3 * abs(x1 - x0) - 2 * abs(y1 - y0),
    ensures
        ({
            let pts = line_walk(
                x,
                y,
                err,
                x1,
                y1,
                abs(x1 - x0),
                -abs(y1 - y0),
                step_dir(x0, x1),
                step_dir(y0, y1),
                fuel,
            );
            forall|m: int|
                0 <= m < pts.len() ==> offset_toward(#[trigger] pts[m].0, x0, x1) == i + m
                    && rounds_to(i + m, offset_toward(pts[m].1, y0, y1), abs(x1 - x0), abs(y1 - y0))
        }),
    decreases fuel,
{
    let dx = abs(x1 - x0);
    let d = abs(y1 - y0);
    let dy = -d;
    let sx = step_dir(x0, x1);
    let sy = step_dir(y0, y1);
    let pts = line_walk(x, y, err, x1, y1, dx, dy, sx, sy, fuel);
    lemma_rounds_from_err_x(dx, d, i, j, err);
    if !(x == x1 && y == y1) {
        lemma_walk_step(x0, y0, x1, y1, x, y, err, i, j);
        let ys = 2 * err <= dx;
        let nx = walk_next_x(x, err, dy, sx);
        let ny = walk_next_y(y, err, dx, sy);
        let ne = walk_next_err(err, dx, dy);
        lemma_walk_pixels_x(
            x0,
            y0,
            x1,
            y1,
            nx,
            ny,
            ne,
            i + 1,
            if ys { j + 1 } else { j },
            (fuel - 1) as nat,
        );
        let rest = line_walk(nx, ny, ne, x1, y1, dx, dy, sx, sy, (fuel - 1) as nat);
        assert(pts == seq![(x, y)] + rest);
        assert forall|m: int| 0 <= m < pts.len() implies offset_toward(#[trigger] pts[m].0, x0, x1)
            == i + m && rounds_to(i + m, offset_toward(pts[m].1, y0, y1), dx, d) by {
            if m > 0 {
                assert(pts[m] == rest[m - 1]);
            }
        }
    }
}

/// On a line steeper than a diagonal, the walk advances one row per point,
/// and its column is the rounded ideal column.
proof fn lemma_walk_pixels_y(
    x0: int,
    y0: int,
    x1: int,
    y1: int,
    x: int,
    y: int,
    err: int,
    i: int,
    j: int,
    fuel: nat,
)
    requires
        walk_state(x0, y0, x1, y1, x, y, err, i, j),
        fuel >= (abs(x1 - x0) - i) + (abs(y1 - y0) - j),
        abs(y1 - y0) > abs(x1 - x0),
        2 * abs(x1 - x0) - 3 * abs(y1 - y0) <= 2 * err < 2 * abs(x1 - x0) - abs(y1 - y0),
    ensures
        ({
            let pts = line_walk(
                x,
                y,
                err,
                x1,
                y1,
                abs(x1 - x0),
                -abs(y1 - y0),
                step_dir(x0, x1),
                step_dir(y0, y1),
                fuel,
            );
            forall|m: int|
                0 <= m < pts.len() ==> offset_toward(#[trigger] pts[m].1, y0, y1) == j + m
                    && rounds_to(j + m, offset_toward(pts[m].0, x0, x1), abs(y1 - y0), abs(x1 - x0))
        }),
    decreases fuel,
{
    let dx = abs(x1 - x0);
    let d = abs(y1 - y0);
    let dy = -d;
    let sx = step_dir(x0, x1);
    let sy = step_dir(y0, y1);
    let pts = line_walk(x, y, err, x1, y1, dx, dy, sx, sy, fuel);
    lemma_rounds_from_err_y(dx, d, i, j, err);
    if !(x == x1 && y == y1) {
        lemma_walk_step(x0, y0, x1, y1, x, y, err, i, j);
        let xs = 2 * err >= dy;
        let nx = walk_next_x(x, err, dy, sx);
        let ny = walk_next_y(y, err, dx, sy);
        let ne = walk_next_err(err, dx, dy);
        lemma_walk_pixels_y(
            x0,
            y0,
            x1,
            y1,
            nx,
            ny,
            ne,
            if xs { i + 1 } else { i },
            j + 1,
            (fuel - 1) as nat,
        );
        let rest = line_walk(nx, ny, ne, x1, y1, dx, dy, sx, sy, (fuel - 1) as nat);
        assert(pts == seq![(x, y)] + rest);
        assert forall|m: int| 0 <= m < pts.len() implies offset_toward(#[trigger] pts[m].1, y0, y1)
            == j + m && rounds_to(j + m, offset_toward(pts[m].0, x0, x1), d, dx) by {
            if m > 0 {
                assert(pts[m] == rest[m - 1]);
            }
        }
    }
}

/// Which pixels the line from `(x0, y0)` to `(x1, y1)` draws: its `k`-th
/// point is `k` steps from the start along the longer axis, and along the
/// shorter axis it is the ideal line's offset there, rounded to the nearest
/// pixel with halves rounded away from the start.
pub proof fn lemma_line_points_pixels(x0: int, y0: int, x1: int, y1: int)
    ensures
        ({
            let pts = line_points(x0, y0, x1, y1);
            let dx = abs(x1 - x0);
            let d = abs(y1 - y0);
            &&& dx >= d && dx > 0 ==> forall|k: int|
                0 <= k < pts.len() ==> offset_toward(#[trigger] pts[k].0, x0, x1) == k && rounds_to(
                    k,
                    offset_toward(pts[k].1, y0, y1),
                    dx,
                    d,
                )
            &&& d > dx ==> forall|k: int|
                0 <= k < pts.len() ==> offset_toward(#[trigger] pts[k].1, y0, y1) == k && rounds_to(
                    k,
                    offset_toward(pts[k].0, x0, x1),
                    d,
                    dx,
                )
        }),
{
    let dx = abs(x1 - x0);
    let d = abs(y1 - y0);
    assert(dx * (1 + 0) - d * (1 + 0) == dx - d) by (nonlinear_arith);
    if dx >= d && dx > 0 {
        lemma_walk_pixels_x(x0, y0, x1, y1, x0, y0, dx - d, 0, 0, (dx + d) as nat);
    }
    if d > dx {
        lemma_walk_pixels_y(x0, y0, x1, y1, x0, y0, dx - d, 0, 0, (dx + d) as nat);
    }
}

/// A point on the canvas has an index inside one plane.
proof fn lemma_pixel_in_plane(x: int, y: int, w: int, h: int)
    requires
        0 <= x < w,
        0 <= y < h,
    ensures
        0 <= y * w + x < w * h,
    {
    assert(0 <= y * w + x < w * h) by (nonlinear_arith)
        requires
            0 <= x < w,
            0 <= y < h,
    ;
}

/// Drawing one more point adds that point's pixel, if it is on the canvas.
proof fn lemma_covers_push(pts: Seq<(int, int)>, p: (int, int), w: int, h: int, k: int)
    ensures
        covers(pts.push(p), w, h, k) == (covers(pts, w, h, k) || (in_canvas(p, w, h)
            && pixel_index(p, w) == k)),
{
    let q = pts.push(p);
    if covers(pts, w, h, k) {
        let i = choose|i: int|
            0 <= i < pts.len() && in_canvas(pts[i], w, h) && pixel_index(#[trigger] pts[i], w) == k;
        assert(q[i] == pts[i]);
    }
    if in_canvas(p, w, h) && pixel_index(p, w) == k {
        assert(q[pts.len() as int] == p);
    }
    if covers(q, w, h, k) {
        let i = choose|i: int|
            0 <= i < q.len() && in_canvas(q[i], w, h) && pixel_index(#[trigger] q[i], w) == k;
        if i < pts.len() {
            assert(q[i] == pts[i]);
        }
    }
}

/// Draws the segment from `(x0, y0)` to `(x1, y1)` into three planes of
/// `w * h` values laid out one after the other in `buf`: every pixel of the
/// walk that lies on the canvas takes `v_mask` in the first plane, `v_time`
/// in the second and `v_angle` in the third.
pub fn draw_line<T: Copy>(
    buf: &mut Vec<T>,
    w: usize,
    h: usize,
    x0: i32,
    y0: i32,
    x1: i32,
    y1: i32,
    v_mask: T,
    v_time: T,
    v_angle: T,
)
    requires
        w <= i32::MAX,
        h <= i32::MAX,
        3 * w * h <= old(buf)@.len(),
    ensures
        final(buf)@ == drawn(
            old(buf)@,
            line_points(x0 as int, y0 as int, x1 as int, y1 as int),
            w as int,
            h as int,
            v_mask,
            v_time,
            v_angle,
        ),
{
    let ghost planes = buf@;
    let len = buf.len();
    assert(planes.len() == len);
    let ghost pts = line_points(x0 as int, y0 as int, x1 as int, y1 as int);
    let x0 = x0 as i64;
    let y0 = y0 as i64;
    let x1 = x1 as i64;
    let y1 = y1 as i64;
    let dx: i64 = if x1 >= x0 { x1 - x0 } else { x0 - x1 };
    let dy: i64 = if y1 >= y0 { y0 - y1 } else { y1 - y0 };
    let sx: i64 = if x0 < x1 { 1 } else { -1 };
    let sy: i64 = if y0 < y1 { 1 } else { -1 };
    let mut err: i64 = dx + dy;
    let mut x: i64 = x0;
    let mut y: i64 = y0;
    assert(3 * w * h == 3 * (w * h)) by (nonlinear_arith);
    assert(w * h >= 0) by (nonlinear_arith)
        requires
            w >= 0,
            h >= 0,
    ;
    assert(w * h <= 3 * (w * h));
    let area: usize = w * h;
    assert(dx * (1 + 0) - (-dy) * (1 + 0) == dx + dy) by (nonlinear_arith);
    let ghost mut i: int = 0;
    let ghost mut j: int = 0;
    let ghost mut fuel: nat = (dx - dy) as nat;
    let ghost mut visited: Seq<(int, int)> = Seq::empty();
    assert(visited + line_walk(x as int, y as int, err as int, x1 as int, y1 as int, dx as int,
        dy as int, sx as int, sy as int, fuel) =~= pts);
    assert(buf@ =~= drawn(planes, visited, w as int, h as int, v_mask, v_time, v_angle));
    loop
        invariant_except_break
            visited + line_walk(x as int, y as int, err as int, x1 as int, y1 as int, dx as int,
                dy as int, sx as int, sy as int, fuel) == pts,
            buf@ == drawn(planes, visited, w as int, h as int, v_mask, v_time, v_angle),
        invariant
            w <= i32::MAX,
            h <= i32::MAX,
            area == w * h,
            3 * area <= planes.len(),
            planes.len() <= usize::MAX,
            buf@.len() == planes.len(),
            dx == abs(x1 - x0),
            dy == -abs(y1 - y0),
            sx == step_dir(x0 as int, x1 as int),
            sy == step_dir(y0 as int, y1 as int),
            i32::MIN <= x0 <= i32::MAX,
            i32::MIN <= y0 <= i32::MAX,
            i32::MIN <= x1 <= i32::MAX,
            i32::MIN <= y1 <= i32::MAX,
            pts == line_points(x0 as int, y0 as int, x1 as int, y1 as int),
            walk_state(x0 as int, y0 as int, x1 as int, y1 as int, x as int, y as int, err as int, i, j),
            fuel >= (dx - i) + (-dy - j),
        ensures
            buf@ == drawn(planes, pts, w as int, h as int, v_mask, v_time, v_angle),
        decreases (dx - i) + (-dy - j),
    {
        let ghost before = buf@;
        let ghost p: (int, int) = (x as int, y as int);
        if x >= 0 && x < w as i64 && y >= 0 && y < h as i64 {
            proof {
                lemma_pixel_in_plane(x as int, y as int, w as int, h as int);
            }
            let idx: usize = (y as usize) * w + (x as usize);
            buf.set(idx, v_mask);
            buf.set(area + idx, v_time);
            buf.set(2 * area + idx, v_angle);
        }
        proof {
            let nv = visited.push(p);
            assert forall|k: int| 0 <= k < planes.len() implies #[trigger] buf@[k] == drawn(
                planes,
                nv,
                w as int,
                h as int,
                v_mask,
                v_time,
                v_angle,
            )[k] by {
                lemma_covers_push(visited, p, w as int, h as int, k);
                lemma_covers_push(visited, p, w as int, h as int, k - area);
                lemma_covers_push(visited, p, w as int, h as int, k - 2 * area);
            }
            assert(buf@ =~= drawn(planes, nv, w as int, h as int, v_mask, v_time, v_angle));
            visited = nv;
        }
        if x == x1 && y == y1 {
            proof {
                assert(visited =~= pts);
            }
            break;
        }
        proof {
            lemma_walk_step(x0 as int, y0 as int, x1 as int, y1 as int, x as int, y as int,
                err as int, i, j);
            assert(visited + line_walk(walk_next_x(x as int, err as int, dy as int, sx as int),
                walk_next_y(y as int, err as int, dx as int, sy as int),
                walk_next_err(err as int, dx as int, dy as int), x1 as int, y1 as int, dx as int,
                dy as int, sx as int, sy as int, (fuel - 1) as nat) =~= pts);
            if 2 * err >= dy {
                i = i + 1;
            }
            if 2 * err <= dx {
                j = j + 1;
            }
            fuel = (fuel - 1) as nat;
        }
        let e2 = 2 * err;
        if e2 >= dy {
            err = err + dy;
            x = x + sx;
        }
        if e2 <= dx {
            err = err + dx;
            y = y + sy;
        }
    }
}

} // verus!
