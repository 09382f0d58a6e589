//! The curve through the points of the chart: a tangent at each point, and
//! between each two neighbours a cubic segment whose control points lie
//! along the tangents, a third of the way across the segment.
//!
//! A tangent is kept as a direction, not scaled to unit length: what a
//! control point needs of it, the projection of the segment onto it, does
//! not depend on its length.

use crate::animation::{clamp_wide, clamped, floor_div, Point};
use vstd::prelude::*;

verus! {

/// A direction on the plane.
#[derive(Clone, Copy, Debug, PartialEq, Eq, Structural)]
pub struct Vector {
    pub x: i64,
    pub y: i64,
}

/// One cubic segment of the curve, from the end of the segment before it
/// (or the first point) to `to`.
#[derive(Clone, Copy, Debug, PartialEq, Eq, Structural)]
pub struct CubicSegment {
    pub control_a: Point,
    pub control_b: Point,
    pub to: Point,
}

/// From `a` to `b`.
pub open spec fn between(a: Point, b: Point) -> Vector {
    Vector { x: (b.x - a.x) as i64, y: (b.y - a.y) as i64 }
}

/// The point at `index` is a turning point: both its neighbours lie above
/// it, or neither does.
pub open spec fn turns_at(points: Seq<Point>, index: int) -> bool {
    (points[index + 1].y > points[index].y) == (points[index - 1].y > points[index].y)
}

/// The direction of the curve at the point `index`: at an end, towards or
/// from the one neighbour; at a turning point, level; elsewhere, from the
/// neighbour before to the neighbour after. A single point has no direction.
pub open spec fn tangent_at(points: Seq<Point>, index: int) -> Vector {
    if points.len() < 2 {
        Vector { x: 0, y: 0 }
    } else if index == 0 {
        between(points[0], points[1])
    } else if index == points.len() - 1 {
        between(points[index - 1], points[index])
    } else if turns_at(points, index) {
        Vector { x: 1, y: 0 }
    } else {
        between(points[index - 1], points[index + 1])
    }
}

/// A third of the projection of `segment` onto the direction `tangent`,
/// each coordinate rounded down; nothing for a direction without length.
pub open spec fn third_along(segment: Vector, tangent: Vector) -> (int, int) {
    let dot = segment.x * tangent.x + segment.y * tangent.y;
    let norm = tangent.x * tangent.x + tangent.y * tangent.y;
    if norm == 0 {
        (0, 0)
    } else {
        (tangent.x * dot / (3 * norm), tangent.y * dot / (3 * norm))
    }
}

/// The segment of the curve from the point `index` to the next.
pub open spec fn segment_at(points: Seq<Point>, index: int) -> CubicSegment {
    let a = points[index];
    let b = points[index + 1];
    let out = third_along(between(a, b), tangent_at(points, index));
    let back = third_along(between(a, b), tangent_at(points, index + 1));
    CubicSegment {
        control_a: Point { x: clamped(a.x + out.0) as i32, y: clamped(a.y + out.1) as i32 },
        control_b: Point { x: clamped(b.x - back.0) as i32, y: clamped(b.y - back.1) as i32 },
        to: b,
    }
}

/// Computes `between`.
fn from_to(a: Point, b: Point) -> (v: Vector)
    ensures
        v == between(a, b),
{
    Vector { x: b.x as i64 - a.x as i64, y: b.y as i64 - a.y as i64 }
}

/// Computes `tangent_at`.
pub fn tangent(points: &Vec<Point>, index: usize) -> (t: Vector)
    requires
        index < points@.len(),
    ensures
        t == tangent_at(points@, index as int),
        -0x1_0000_0000 <= t.x <= 0x1_0000_0000,
        -0x1_0000_0000 <= t.y <= 0x1_0000_0000,
{
    let n = points.len();
    if n < 2 {
        Vector { x: 0, y: 0 }
    } else if index == 0 {
        from_to(points[0], points[1])
    } else if index == n - 1 {
        from_to(points[index - 1], points[index])
    } else if (points[index + 1].y > points[index].y) == (points[index - 1].y > points[index].y) {
        Vector { x: 1, y: 0 }
    } else {
        from_to(points[index - 1], points[index + 1])
    }
}

/// The directions of the curve at all its points.
pub fn tangents(points: &Vec<Point>) -> (all: Vec<Vector>)
    ensures
        all@.len() == points@.len(),
        forall|i: int| 0 <= i < all@.len() ==> #[trigger] all@[i] == tangent_at(points@, i),
{
    let mut all: Vec<Vector> = Vec::new();
    let mut i: usize = 0;
    while i < points.len()
        invariant
            i <= points.len(),
            all@.len() == i,
            forall|j: int| 0 <= j < i ==> #[trigger] all@[j] == tangent_at(points@, j),
        decreases points.len() - i,
    {
        all.push(tangent(points, i));
        i = i + 1;
    }
    all
}

/// Computes `third_along`.
fn third(segment: Vector, tangent: Vector) -> (offset: (i128, i128))
    requires
        -0x1_0000_0000 <= segment.x <= 0x1_0000_0000,
        -0x1_0000_0000 <= segment.y <= 0x1_0000_0000,
        -0x1_0000_0000 <= tangent.x <= 0x1_0000_0000,
        -0x1_0000_0000 <= tangent.y <= 0x1_0000_0000,
    ensures
        (offset.0 as int, offset.1 as int) == third_along(segment, tangent),
        -0x1_0000_0000_0000_0000_0000_0000_0000 <= offset.0
            <= 0x1_0000_0000_0000_0000_0000_0000_0000,
        -0x1_0000_0000_0000_0000_0000_0000_0000 <= offset.1
            <= 0x1_0000_0000_0000_0000_0000_0000_0000,
{
    let bound: i128 = 0x1_0000_0000_0000_0000;
    assert(-bound <= segment.x * tangent.x <= bound && -bound <= segment.y * tangent.y <= bound
        && 0 <= tangent.x * tangent.x <= bound && 0 <= tangent.y * tangent.y <= bound)
        by (nonlinear_arith)
        requires
            bound == 0x1_0000_0000_0000_0000,
            -0x1_0000_0000 <= segment.x <= 0x1_0000_0000,
            -0x1_0000_0000 <= segment.y <= 0x1_0000_0000,
            -0x1_0000_0000 <= tangent.x <= 0x1_0000_0000,
            -0x1_0000_0000 <= tangent.y <= 0x1_0000_0000,
    ;
    let dot: i128 = (segment.x as i128) * (tangent.x as i128) + (segment.y as i128) * (
    tangent.y as i128);
    let norm: i128 = (tangent.x as i128) * (tangent.x as i128) + (tangent.y as i128) * (
    tangent.y as i128);
    if norm == 0 {
        return (0, 0);
    }
    let wide: i128 = 0x2_0000_0000_0000_0000_0000_0000;
    assert(-wide <= tangent.x * dot <= wide && -wide <= tangent.y * dot <= wide)
        by (nonlinear_arith)
        requires
            wide == 0x2_0000_0000_0000_0000_0000_0000,
            -0x2_0000_0000_0000_0000 <= dot <= 0x2_0000_0000_0000_0000,
            -0x1_0000_0000 <= tangent.x <= 0x1_0000_0000,
            -0x1_0000_0000 <= tangent.y <= 0x1_0000_0000,
    ;
    let across: i128 = floor_div((tangent.x as i128) * dot, 3 * norm);
    let up: i128 = floor_div((tangent.y as i128) * dot, 3 * norm);
    proof {
        lemma_quotient_within(tangent.x * dot, 3 * norm);
        lemma_quotient_within(tangent.y * dot, 3 * norm);
    }
    (across, up)
}

/// A quotient by a positive number lies between the dividend and zero.
proof fn lemma_quotient_within(a: int, b: int)
    requires
        b >= 1,
    ensures
        a >= 0 ==> 0 <= a / b <= a,
        a < 0 ==> a <= a / b <= 0,
{
    vstd::arithmetic::div_mod::lemma_fundamental_div_mod(a, b);
    vstd::arithmetic::div_mod::lemma_mod_bound(a, b);
    let q = a / b;
    let r = a % b;
    assert(a == b * q + r);
    if a >= 0 {
        assert(q >= 0 && q <= a) by (nonlinear_arith)
            requires
                a == b * q + r,
                0 <= r < b,
                b >= 1,
                a >= 0,
        ;
    } else {
        assert(q <= 0 && a <= q) by (nonlinear_arith)
            requires
                a == b * q + r,
                0 <= r < b,
                b >= 1,
                a < 0,
        ;
    }
}

/// Computes `segment_at`.
pub fn segment(points: &Vec<Point>, index: usize) -> (s: CubicSegment)
    requires
        index + 1 < points@.len(),
    ensures
        s == segment_at(points@, index as int),
{
    let n = points.len();
    let a = points[index];
    let b = points[index + 1];
    let across = from_to(a, b);
    let out = third(across, tangent(points, index));
    let back = third(across, tangent(points, index + 1));
    CubicSegment {
        control_a: Point {
            x: clamp_wide(a.x as i128 + out.0),
            y: clamp_wide(a.y as i128 + out.1),
        },
        control_b: Point {
            x: clamp_wide(b.x as i128 - back.0),
            y: clamp_wide(b.y as i128 - back.1),
        },
        to: b,
    }
}

/// The curve through the points: it starts at the first point and has one
/// segment to each point after it. Fewer than two points have no curve.
pub fn curve(points: &Vec<Point>) -> (path: Vec<CubicSegment>)
    ensures
        points@.len() < 2 ==> path@.len() == 0,
        points@.len() >= 2 ==> path@.len() == points@.len() - 1,
        forall|i: int| 0 <= i < path@.len() ==> #[trigger] path@[i] == segment_at(points@, i),
{
    let mut path: Vec<CubicSegment> = Vec::new();
    if points.len() < 2 {
        return path;
    }
    let mut i: usize = 0;
    while i + 1 < points.len()
        invariant
            i + 1 <= points.len(),
            path@.len() == i,
            forall|j: int| 0 <= j < i ==> #[trigger] path@[j] == segment_at(points@, j),
        decreases points.len() - i,
    {
        path.push(segment(points, i));
        i = i + 1;
    }
    path
}

/// Every segment of the curve ends in its point, so the curve passes
/// through all the points; and at a turning point the control points on
/// both sides lie level with the point, so the curve does not rise above a
/// peak or dip below a trough there.
pub proof fn lemma_curve_is_level_at_turns(points: Seq<Point>, index: int)
    requires
        0 < index < points.len() - 1,
        turns_at(points, index),
    ensures
        segment_at(points, index - 1).to == points[index],
        segment_at(points, index - 1).control_b.y == points[index].y,
        segment_at(points, index).control_a.y == points[index].y,
{
    let level = Vector { x: 1, y: 0 };
    assert(tangent_at(points, index) == level);
    let before = between(points[index - 1], points[index]);
    let after = between(points[index], points[index + 1]);
    assert(third_along(before, level).1 == 0) by {
        let dot = before.x * level.x + before.y * level.y;
        assert(level.y * dot == 0) by (nonlinear_arith)
            requires
                level.y == 0,
        ;
    }
    assert(third_along(after, level).1 == 0) by {
        let dot = after.x * level.x + after.y * level.y;
        assert(level.y * dot == 0) by (nonlinear_arith)
            requires
                level.y == 0,
        ;
    }
}

} // verus!
