//! The results chart: the scale of its value axis, eased from frame to
//! frame, the grid lines that slide in and out as their number changes, and
//! the data points in pixel space.
//!
//! Pixel lengths and data values are whole numbers of thousandths, and so is
//! the eased number of grid lines; shares and progress are millionths.

use crate::animation::{
    approach, approached, clamp_i32, clamp_wide, clamped, distance, floor_div, gap,
    lemma_approached, mix, mix_for, Point, MIX_ONE,
};
use crate::curve::{curve, segment_at, CubicSegment};
use vstd::prelude::*;

verus! {

/// The share of the distance that the scale covers per second, in wholes.
pub const SCALE_RATE: u32 = 5;

/// The scale is at rest within this distance of its target: a hundredth.
pub const SCALE_TOLERANCE: u64 = 10;

/// The least room that the labels of the value axis get: forty pixels.
pub const MIN_LABEL_WIDTH: i32 = 40_000;

/// The share of the chart's animation after which the last grid line has
/// begun to grow.
pub const GRID_LINES_SPAN: u32 = 375_000;

/// The share of the chart's animation after which the curve begins to show.
pub const MAIN_LINE_DELAY: u32 = 250_000;

/// The chart, as its owner describes it.
#[derive(Debug)]
pub struct LineChart {
    /// The distance between two grid lines that the chart aims at.
    pub target_grid_lines_spacing: i32,
    /// The step to which the value of a grid line is rounded.
    pub scale_rounding: u32,
    /// How far the chart's entrance has come, in millionths.
    pub animation_progress: u32,
    /// The points in data space.
    pub points: Vec<Point>,
}

/// The rectangle that the plot fills.
#[derive(Clone, Copy, Debug, PartialEq, Eq, Structural)]
pub struct Bounds {
    pub left: i32,
    pub top: i32,
    pub width: i32,
    pub height: i32,
}

/// The scale of the value axis.
#[derive(Clone, Copy, Debug, PartialEq, Eq, Structural)]
pub struct AxisScale {
    /// The value between two grid lines.
    pub units_per_grid_line: i64,
    /// The value at the top of the axis.
    pub scale: i64,
}

/// What the chart keeps from frame to frame.
#[derive(Clone, Copy, Debug, PartialEq, Eq, Structural)]
pub struct ScaleState {
    /// The eased number of grid lines, in thousandths.
    pub num_grid_lines: i64,
    /// The eased value at the top of the axis.
    pub scale: i64,
    /// When the last frame came, if the scale was moving then.
    pub last_frame: Option<u64>,
}

/// What the scale of the chart aims at.
#[derive(Clone, Copy, Debug, PartialEq, Eq, Structural)]
pub struct ScaleTargets {
    /// The number of grid lines, in thousandths.
    pub num_grid_lines: i64,
    /// The value at the top of the axis; zero for a chart without axis.
    pub scale: i64,
    /// The value between two grid lines; zero for a chart without axis.
    pub units_per_grid_line: i64,
}

/// The scale of the chart in one frame.
#[derive(Debug)]
pub struct ScaleFrame {
    /// The state to keep for the next frame.
    pub state: ScaleState,
    /// Whether another frame is due.
    pub animating: bool,
    /// The value between two grid lines.
    pub units_per_grid_line: i64,
    /// The grid lines to draw, from the top down.
    pub grid_lines: Vec<GridLine>,
}

/// What the chart has ready before it is painted.
#[derive(Debug)]
pub struct Prepaint {
    /// The rectangle of the plot, between the labels.
    pub content_bounds: Bounds,
    /// The points in pixel space.
    pub points: Vec<Point>,
    /// The curve through the points, from the first point on.
    pub path: Vec<CubicSegment>,
}

/// One grid line of the value axis.
#[derive(Clone, Copy, Debug, PartialEq, Eq, Structural)]
pub struct GridLine {
    /// The distance of the line from the top of the plot.
    pub y: i32,
    /// How much of the line has slid into the plot, in thousandths.
    pub visibility: u32,
    /// The value to label the line with.
    pub label: i64,
}

/// The larger coordinates of the two points.
pub open spec fn upper(a: Point, b: Point) -> Point {
    Point {
        x: if a.x >= b.x {
            a.x
        } else {
            b.x
        },
        y: if a.y >= b.y {
            a.y
        } else {
            b.y
        },
    }
}

/// The largest coordinates among the points, and no less than zero.
pub open spec fn range_of(points: Seq<Point>) -> Point
    decreases points.len(),
{
    if points.len() == 0 {
        Point { x: 0, y: 0 }
    } else {
        upper(points.last(), range_of(points.drop_last()))
    }
}

/// The number of grid lines that fit the height at the given spacing, to the
/// nearest line; none where the height or the spacing is not positive.
pub open spec fn grid_count(height: int, spacing: int) -> nat {
    if height <= 0 || spacing <= 0 {
        0
    } else {
        ((2 * height + spacing) / (2 * spacing)) as nat
    }
}

/// The value between two grid lines: the least multiple of `rounding` that
/// lets `count` grid lines reach `max_y`.
pub open spec fn units_for(max_y: int, rounding: int, count: int) -> int {
    ((max_y + rounding * count - 1) / (rounding * count)) * rounding
}

/// What the scale aims at, for data that reaches `max_y` in a plot of the
/// given height: the grid lines that fit the height at the spacing, and the
/// axis that lets them reach `max_y` in steps of `rounding`. Where there
/// is no grid line or no rounding step, or the top of the axis would not
/// fit in `i64`, the chart has no axis, and its scale is zero.
pub open spec fn targets_of(max_y: int, rounding: int, spacing: int, height: int)
    -> ScaleTargets {
    let count = grid_count(height, spacing) as int;
    let units = units_for(max_y, rounding, count);
    if rounding == 0 || count == 0 || units * count > i64::MAX {
        ScaleTargets { num_grid_lines: (count * 1000) as i64, scale: 0, units_per_grid_line: 0 }
    } else {
        ScaleTargets {
            num_grid_lines: (count * 1000) as i64,
            scale: (units * count) as i64,
            units_per_grid_line: units as i64,
        }
    }
}

/// A value eased towards its target: within the tolerance it stands on the
/// target, beyond it covers a share of the distance.
pub open spec fn eased(value: int, target: int, elapsed_us: nat) -> int {
    if gap(value, target) > SCALE_TOLERANCE {
        approached(value, target, mix_for(elapsed_us, SCALE_RATE as nat))
    } else {
        target
    }
}

/// The time since the last frame of a moving scale; none where the scale
/// was at rest.
pub open spec fn since(last_frame: Option<u64>, now: u64) -> nat {
    match last_frame {
        Some(last) => if now >= last {
            (now - last) as nat
        } else {
            0
        },
        None => 0,
    }
}

/// The state of the scale after a frame at `now`, given the targets for the
/// number of grid lines (in thousandths) and for the top of the axis. A
/// chart that had no state starts on its targets.
pub open spec fn scale_frame(
    state: Option<ScaleState>,
    target_lines: i64,
    target_scale: i64,
    now: u64,
) -> ScaleState {
    match state {
        None => ScaleState { num_grid_lines: target_lines, scale: target_scale, last_frame: None },
        Some(s) => ScaleState {
            num_grid_lines: eased(
                s.num_grid_lines as int,
                target_lines as int,
                since(s.last_frame, now),
            ) as i64,
            scale: eased(s.scale as int, target_scale as int, since(s.last_frame, now)) as i64,
            last_frame: if scale_moves(state, target_lines, target_scale) {
                Some(now)
            } else {
                None
            },
        },
    }
}

/// The scale is not at rest: the number of grid lines or the top of the
/// axis lies beyond the tolerance from its target.
pub open spec fn scale_moves(state: Option<ScaleState>, target_lines: i64, target_scale: i64)
    -> bool {
    match state {
        None => false,
        Some(s) => gap(s.num_grid_lines as int, target_lines as int) > SCALE_TOLERANCE || gap(
            s.scale as int,
            target_scale as int,
        ) > SCALE_TOLERANCE,
    }
}

/// Computes `range_of`.
pub fn data_range(points: &Vec<Point>) -> (range: Point)
    ensures
        range == range_of(points@),
{
    let mut range = Point { x: 0, y: 0 };
    let mut i: usize = 0;
    assert(points@.subrange(0, 0) =~= Seq::<Point>::empty());
    while i < points.len()
        invariant
            i <= points.len(),
            range == range_of(points@.subrange(0, i as int)),
        decreases points.len() - i,
    {
        let p = points[i];
        assert(points@.subrange(0, i + 1).drop_last() =~= points@.subrange(0, i as int));
        range = Point {
            x: if p.x >= range.x {
                p.x
            } else {
                range.x
            },
            y: if p.y >= range.y {
                p.y
            } else {
                range.y
            },
        };
        i = i + 1;
    }
    assert(points@.subrange(0, i as int) =~= points@);
    range
}

/// The range of the points is no less than zero and no less than any point,
/// and each of its coordinates is zero or a coordinate of some point.
pub proof fn lemma_range_of(points: Seq<Point>)
    ensures
        range_of(points).x >= 0,
        range_of(points).y >= 0,
        forall|i: int|
            0 <= i < points.len() ==> (#[trigger] points[i]).x <= range_of(points).x && points[i].y
                <= range_of(points).y,
        range_of(points).x == 0 || exists|i: int|
            0 <= i < points.len() && (#[trigger] points[i]).x == range_of(points).x,
        range_of(points).y == 0 || exists|i: int|
            0 <= i < points.len() && (#[trigger] points[i]).y == range_of(points).y,
    decreases points.len(),
{
    if points.len() > 0 {
        let front = points.drop_last();
        lemma_range_of(front);
        assert forall|i: int| 0 <= i < points.len() implies (#[trigger] points[i]).x <= range_of(
            points,
        ).x && points[i].y <= range_of(points).y by {
            if i < front.len() {
                assert(points[i] == front[i]);
            }
        }
        let total = range_of(points);
        if total.x != 0 {
            if total.x == points.last().x {
                assert(points[points.len() - 1].x == total.x);
            } else {
                let k = choose|k: int| 0 <= k < front.len() && (#[trigger] front[k]).x == range_of(
                    front,
                ).x;
                assert(points[k].x == total.x);
            }
        }
        if total.y != 0 {
            if total.y == points.last().y {
                assert(points[points.len() - 1].y == total.y);
            } else {
                let k = choose|k: int| 0 <= k < front.len() && (#[trigger] front[k]).y == range_of(
                    front,
                ).y;
                assert(points[k].y == total.y);
            }
        }
    }
}

/// Computes `grid_count`.
pub fn target_grid_lines(height: i32, spacing: i32) -> (count: u32)
    ensures
        count == grid_count(height as int, spacing as int),
{
    if height <= 0 || spacing <= 0 {
        0
    } else {
        let twice: u64 = 2 * (height as u64) + (spacing as u64);
        let per: u64 = 2 * (spacing as u64);
        assert(twice / per <= height + 1) by (nonlinear_arith)
            requires
                spacing >= 1,
                height >= 1,
                twice == 2 * height + spacing,
                per == 2 * spacing,
        ;
        (twice / per) as u32
    }
}

/// The scale of the value axis for data that reaches `max_y`, with `count`
/// grid lines whose values are multiples of `rounding`; `None` where there
/// is no grid line or no rounding step, and where the top of the axis would
/// not fit in `i64`.
pub fn axis_scale(max_y: u32, rounding: u32, count: u32) -> (axis: Option<AxisScale>)
    ensures
        axis is None <==> rounding == 0 || count == 0 || units_for(
            max_y as int,
            rounding as int,
            count as int,
        ) * count > i64::MAX,
        axis matches Some(a) ==> {
            &&& a.units_per_grid_line == units_for(max_y as int, rounding as int, count as int)
            &&& a.scale == a.units_per_grid_line * count
            &&& a.scale >= max_y
            &&& a.units_per_grid_line % (rounding as i64) == 0
            &&& a.units_per_grid_line == 0 || (a.units_per_grid_line - rounding) * count < max_y
        },
{
    if rounding == 0 || count == 0 {
        return None;
    }
    assert(1 <= rounding * count <= 0xFFFF_FFFF * 0xFFFF_FFFF) by (nonlinear_arith)
        requires
            1 <= rounding <= 0xFFFF_FFFF,
            1 <= count <= 0xFFFF_FFFF,
    ;
    let per: u128 = (rounding as u128) * (count as u128);
    let steps: u128 = (max_y as u128 + per - 1) / per;
    proof {
        lemma_steps(max_y as int, per as int);
        assert(steps * rounding <= 0x1_0000_0000 * 0xFFFF_FFFF) by (nonlinear_arith)
            requires
                0 <= steps <= max_y,
                max_y <= 0xFFFF_FFFF,
                rounding <= 0xFFFF_FFFF,
        ;
    }
    let units: u128 = steps * (rounding as u128);
    assert(units * count <= 0x1_0000_0000 * 0xFFFF_FFFF * 0xFFFF_FFFF) by (nonlinear_arith)
        requires
            0 <= units <= 0x1_0000_0000 * 0xFFFF_FFFF,
            0 <= count <= 0xFFFF_FFFF,
    ;
    let scale: u128 = units * (count as u128);
    if scale > i64::MAX as u128 {
        return None;
    }
    proof {
        assert(units <= scale) by (nonlinear_arith)
            requires
                scale == units * count,
                count >= 1,
                units >= 0,
        ;
        assert(scale == steps * per && (units - rounding) * count == (steps - 1) * per)
            by (nonlinear_arith)
            requires
                scale == units * count,
                units == steps * rounding,
                per == rounding * count,
        ;
        assert((steps * rounding) % (rounding as int) == 0) by (nonlinear_arith)
            requires
                rounding > 0,
        ;
        assert(units == units_for(max_y as int, rounding as int, count as int));
        assert(scale >= max_y);
        assert(units % (rounding as u128) == 0);
        assert(steps == 0 ==> units == 0) by (nonlinear_arith)
            requires
                units == steps * rounding,
        ;
        assert(units == 0 || (units - rounding) * count < max_y);
    }
    let axis = AxisScale { units_per_grid_line: units as i64, scale: scale as i64 };
    assert(axis.units_per_grid_line % (rounding as i64) == 0);
    assert(axis.scale == axis.units_per_grid_line * count);
    Some(axis)
}

/// Rounding a quotient up: the least number of steps of `per` that reach
/// `value`.
proof fn lemma_steps(value: int, per: int)
    requires
        value >= 0,
        per >= 1,
    ensures
        ({
            let steps = (value + per - 1) / per;
            &&& 0 <= steps <= value
            &&& steps * per >= value
            &&& steps == 0 || (steps - 1) * per < value
        }),
{
    let steps = (value + per - 1) / per;
    assert(steps * per <= value + per - 1 < steps * per + per) by (nonlinear_arith)
        requires
            steps == (value + per - 1) / per,
            per >= 1,
    ;
    assert(0 <= steps <= value) by (nonlinear_arith)
        requires
            steps * per <= value + per - 1 < steps * per + per,
            value >= 0,
            per >= 1,
    ;
    assert((steps - 1) * per == steps * per - per) by (nonlinear_arith);
}

/// Computes `eased`.
fn ease(value: i64, target: i64, elapsed_us: u64) -> (next: i64)
    ensures
        next == eased(value as int, target as int, elapsed_us as nat),
{
    if distance(value, target) > SCALE_TOLERANCE {
        approach(value, target, mix(elapsed_us, SCALE_RATE))
    } else {
        target
    }
}

/// Advances the scale by one frame at `now`, and tells whether another
/// frame is due because the scale was not at rest.
pub fn animate_scale(
    state: Option<ScaleState>,
    target_lines: i64,
    target_scale: i64,
    now: u64,
) -> (frame: (ScaleState, bool))
    ensures
        frame.0 == scale_frame(state, target_lines, target_scale, now),
        frame.1 == scale_moves(state, target_lines, target_scale),
{
    match state {
        None => (
            ScaleState { num_grid_lines: target_lines, scale: target_scale, last_frame: None },
            false,
        ),
        Some(s) => {
            let elapsed: u64 = match s.last_frame {
                Some(last) => if now >= last {
                    now - last
                } else {
                    0
                },
                None => 0,
            };
            let moves = distance(s.num_grid_lines, target_lines) > SCALE_TOLERANCE || distance(
                s.scale,
                target_scale,
            ) > SCALE_TOLERANCE;
            proof {
                lemma_approached(
                    s.num_grid_lines as int,
                    target_lines as int,
                    mix_for(elapsed as nat, SCALE_RATE as nat),
                );
                lemma_approached(
                    s.scale as int,
                    target_scale as int,
                    mix_for(elapsed as nat, SCALE_RATE as nat),
                );
            }
            (
                ScaleState {
                    num_grid_lines: ease(s.num_grid_lines, target_lines, elapsed),
                    scale: ease(s.scale, target_scale, elapsed),
                    last_frame: if moves {
                        Some(now)
                    } else {
                        None
                    },
                },
                moves,
            )
        },
    }
}

/// A frame never takes the scale farther from its targets. A frame that
/// finds the scale within the tolerance, or that comes a whole time constant
/// after the last, puts it on its targets; and once it stands there, no
/// further frame is asked for.
pub proof fn lemma_scale_settles(
    state: ScaleState,
    target_lines: i64,
    target_scale: i64,
    now: u64,
)
    ensures
        ({
            let next = scale_frame(Some(state), target_lines, target_scale, now);
            let elapsed = since(state.last_frame, now);
            &&& gap(next.num_grid_lines as int, target_lines as int) <= gap(
                state.num_grid_lines as int,
                target_lines as int,
            )
            &&& gap(next.scale as int, target_scale as int) <= gap(
                state.scale as int,
                target_scale as int,
            )
            &&& (!scale_moves(Some(state), target_lines, target_scale) || elapsed * SCALE_RATE
                >= MIX_ONE) ==> next.num_grid_lines == target_lines && next.scale == target_scale
            &&& next.num_grid_lines == target_lines && next.scale == target_scale ==> !scale_moves(
                Some(next),
                target_lines,
                target_scale,
            )
            &&& !scale_moves(Some(state), target_lines, target_scale) ==> next.last_frame is None
        }),
{
    let share = mix_for(since(state.last_frame, now), SCALE_RATE as nat);
    lemma_approached(state.num_grid_lines as int, target_lines as int, share);
    lemma_approached(state.scale as int, target_scale as int, share);
}

/// The state after the frames at the times `times`, in order, with targets
/// that stay the same.
pub open spec fn scale_frames(
    state: ScaleState,
    target_lines: i64,
    target_scale: i64,
    times: Seq<u64>,
) -> ScaleState
    decreases times.len(),
{
    if times.len() == 0 {
        state
    } else {
        scale_frame(
            Some(scale_frames(state, target_lines, target_scale, times.drop_last())),
            target_lines,
            target_scale,
            times.last(),
        )
    }
}

/// With targets that stay the same, the scale is on its targets after any
/// run of frames of which one came a whole time constant after the frame
/// before it; from then on it stays there and asks for no further frame.
pub proof fn lemma_scale_converges(
    state: ScaleState,
    target_lines: i64,
    target_scale: i64,
    times: Seq<u64>,
    slow: int,
)
    requires
        0 <= slow < times.len(),
        since(
            scale_frames(state, target_lines, target_scale, times.subrange(0, slow)).last_frame,
            times[slow],
        ) * SCALE_RATE >= MIX_ONE || !scale_moves(
            Some(scale_frames(state, target_lines, target_scale, times.subrange(0, slow))),
            target_lines,
            target_scale,
        ),
    ensures
        scale_frames(state, target_lines, target_scale, times).num_grid_lines == target_lines,
        scale_frames(state, target_lines, target_scale, times).scale == target_scale,
        !scale_moves(
            Some(scale_frames(state, target_lines, target_scale, times)),
            target_lines,
            target_scale,
        ),
    decreases times.len(),
{
    let before = scale_frames(state, target_lines, target_scale, times.drop_last());
    lemma_scale_settles(before, target_lines, target_scale, times.last());
    if slow == times.len() - 1 {
        assert(times.subrange(0, slow) =~= times.drop_last());
    } else {
        assert(times.drop_last().subrange(0, slow) =~= times.subrange(0, slow));
        lemma_scale_converges(state, target_lines, target_scale, times.drop_last(), slow);
    }
}

/// How many grid lines are drawn while the eased number of lines stands at
/// `num` thousandths: that number rounded up to whole lines, none for a
/// number that is not positive, and no more than `u32::MAX`.
pub open spec fn drawn_lines(num: int) -> int {
    if num <= 0 {
        0
    } else if (num + 999) / 1000 > u32::MAX {
        u32::MAX as int
    } else {
        (num + 999) / 1000
    }
}

/// Where the grid line `index` stands, in thousandths of a line from the top
/// of the plot: the first line lies above the top by the part of a line that
/// has not slid in yet.
pub open spec fn line_offset(num: int, index: int) -> int {
    index * 1000 + num - drawn_lines(num) * 1000
}

/// The grid line `index` of a plot of the given height.
pub open spec fn grid_line(num: int, height: int, units: int, index: int) -> GridLine {
    let y = line_offset(num, index) * height / num;
    let shown = line_offset(num, index) + 1000;
    let label = (drawn_lines(num) - index) * units;
    GridLine {
        y: if y < 0 {
            0
        } else {
            clamped(y) as i32
        },
        visibility: if shown < 0 {
            0
        } else if shown > 1000 {
            1000
        } else {
            shown as u32
        },
        label: if label < i64::MIN {
            i64::MIN
        } else if label > i64::MAX {
            i64::MAX
        } else {
            label as i64
        },
    }
}

/// The grid lines to draw, from the top down, with one line more than the
/// eased number of lines rounded up: the last stands at the bottom of the
/// plot. None are drawn while the number of lines is not positive.
pub fn grid_lines(num_grid_lines: i64, height: i32, units_per_grid_line: i64) -> (lines: Vec<
    GridLine,
>)
    ensures
        num_grid_lines <= 0 ==> lines@.len() == 0,
        num_grid_lines > 0 ==> lines@.len() == drawn_lines(num_grid_lines as int) + 1,
        forall|i: int|
            0 <= i < lines@.len() ==> #[trigger] lines@[i] == grid_line(
                num_grid_lines as int,
                height as int,
                units_per_grid_line as int,
                i,
            ),
{
    let mut lines: Vec<GridLine> = Vec::new();
    if num_grid_lines <= 0 {
        return lines;
    }
    let rounded: i64 = (num_grid_lines - 1) / 1000 + 1;
    let drawn: u32 = if rounded > u32::MAX as i64 {
        u32::MAX
    } else {
        rounded as u32
    };
    assert(drawn == drawn_lines(num_grid_lines as int));
    let mut i: u64 = 0;
    while i <= drawn as u64
        invariant
            i <= drawn + 1,
            num_grid_lines > 0,
            drawn == drawn_lines(num_grid_lines as int),
            lines@.len() == i,
            forall|j: int|
                0 <= j < i ==> #[trigger] lines@[j] == grid_line(
                    num_grid_lines as int,
                    height as int,
                    units_per_grid_line as int,
                    j,
                ),
        decreases drawn + 1 - i,
    {
        let offset: i128 = (i as i128) * 1000 + (num_grid_lines as i128) - (drawn as i128) * 1000;
        assert(offset * height >= -0x1_0000_0000_0000_0000_0000_0000 && offset * height
            <= 0x1_0000_0000_0000_0000_0000_0000) by (nonlinear_arith)
            requires
                -0x1_0000_0000_0000_0000 <= offset <= 0x1_0000_0000_0000_0000,
                -0x8000_0000 <= height <= 0x8000_0000,
        ;
        let y: i128 = floor_div(offset * (height as i128), num_grid_lines as i128);
        let shown: i128 = offset + 1000;
        assert((drawn - i) * units_per_grid_line >= -0x1_0000_0000_0000_0000_0000_0000 && (drawn
            - i) * units_per_grid_line <= 0x1_0000_0000_0000_0000_0000_0000) by (nonlinear_arith)
            requires
                -0x1_0000_0000 <= drawn - i <= 0x1_0000_0000,
                -0x8000_0000_0000_0000 <= units_per_grid_line <= 0x8000_0000_0000_0000,
        ;
        let label: i128 = ((drawn as i128) - (i as i128)) * (units_per_grid_line as i128);
        lines.push(
            GridLine {
                y: if y < 0 {
                    0
                } else {
                    clamp_wide(y)
                },
                visibility: if shown < 0 {
                    0
                } else if shown > 1000 {
                    1000
                } else {
                    shown as u32
                },
                label: if label < i64::MIN as i128 {
                    i64::MIN
                } else if label > i64::MAX as i128 {
                    i64::MAX
                } else {
                    label as i64
                },
            },
        );
        i = i + 1;
    }
    lines
}

/// The room that the labels of the value axis get: the width of the widest
/// label, and no less than `MIN_LABEL_WIDTH`.
pub open spec fn widest(widths: Seq<i32>) -> int
    decreases widths.len(),
{
    if widths.len() == 0 {
        MIN_LABEL_WIDTH as int
    } else if widths.last() > widest(widths.drop_last()) {
        widths.last() as int
    } else {
        widest(widths.drop_last())
    }
}

/// Computes `widest`.
pub fn label_margin(widths: &Vec<i32>) -> (margin: i32)
    ensures
        margin == widest(widths@),
        margin >= MIN_LABEL_WIDTH,
{
    let mut margin: i32 = MIN_LABEL_WIDTH;
    let mut i: usize = 0;
    assert(widths@.subrange(0, 0) =~= Seq::<i32>::empty());
    while i < widths.len()
        invariant
            i <= widths.len(),
            margin == widest(widths@.subrange(0, i as int)),
            margin >= MIN_LABEL_WIDTH,
        decreases widths.len() - i,
    {
        assert(widths@.subrange(0, i + 1).drop_last() =~= widths@.subrange(0, i as int));
        if widths[i] > margin {
            margin = widths[i];
        }
        i = i + 1;
    }
    assert(widths@.subrange(0, i as int) =~= widths@);
    margin
}

/// The rectangle left for the plot once the labels have their room on both
/// sides.
pub fn plot_bounds(bounds: Bounds, margin: i32) -> (plot: Bounds)
    ensures
        plot.left == clamped(bounds.left + margin),
        plot.width == clamped(bounds.width - 2 * margin),
        plot.top == bounds.top,
        plot.height == bounds.height,
{
    Bounds {
        left: clamp_i32(bounds.left as i64 + margin as i64),
        top: bounds.top,
        width: clamp_i32(bounds.width as i64 - 2 * (margin as i64)),
        height: bounds.height,
    }
}

/// A data point in pixel space: its first coordinate spreads the range of
/// the data over the width of the plot, its second puts the top of the axis
/// at the top of the plot. Data without range lies on the left edge, and
/// data without scale on the bottom edge.
pub open spec fn projected(p: Point, range_x: int, scale: int, plot: Bounds) -> Point {
    Point {
        x: clamped(
            plot.left + (if range_x > 0 {
                p.x * plot.width / range_x
            } else {
                0
            }),
        ) as i32,
        y: clamped(
            plot.top + plot.height - (if scale > 0 {
                p.y * plot.height / scale
            } else {
                0
            }),
        ) as i32,
    }
}

/// Computes `projected`.
pub fn project(p: Point, range_x: i32, scale: i64, plot: Bounds) -> (q: Point)
    ensures
        q == projected(p, range_x as int, scale as int, plot),
{
    let along: i128 = if range_x > 0 {
        assert(p.x * plot.width >= -0x1_0000_0000_0000_0000 && p.x * plot.width
            <= 0x1_0000_0000_0000_0000) by (nonlinear_arith)
            requires
                -0x8000_0000 <= p.x <= 0x8000_0000,
                -0x8000_0000 <= plot.width <= 0x8000_0000,
        ;
        floor_div((p.x as i128) * (plot.width as i128), range_x as i128)
    } else {
        0
    };
    let up: i128 = if scale > 0 {
        assert(p.y * plot.height >= -0x1_0000_0000_0000_0000 && p.y * plot.height
            <= 0x1_0000_0000_0000_0000) by (nonlinear_arith)
            requires
                -0x8000_0000 <= p.y <= 0x8000_0000,
                -0x8000_0000 <= plot.height <= 0x8000_0000,
        ;
        floor_div((p.y as i128) * (plot.height as i128), scale as i128)
    } else {
        0
    };
    proof {
        if range_x > 0 {
            lemma_quotient_bound(p.x * plot.width, range_x as int);
        }
        if scale > 0 {
            lemma_quotient_bound(p.y * plot.height, scale as int);
        }
    }
    Point {
        x: clamp_wide(plot.left as i128 + along),
        y: clamp_wide(plot.top as i128 + plot.height as i128 - up),
    }
}

/// A quotient by a positive number is no farther from zero than the
/// dividend, but for the one that rounding down adds.
proof fn lemma_quotient_bound(a: int, b: int)
    requires
        b >= 1,
    ensures
        a >= 0 ==> 0 <= a / b <= a,
        a < 0 ==> a <= a / b <= 0,
{
    vstd::arithmetic::div_mod::lemma_fundamental_div_mod(a, b);
    vstd::arithmetic::div_mod::lemma_mod_bound(a, b);
    let q = a / b;
    let r = a % b;
    assert(a == b * q + r);
    if a >= 0 {
        assert(q >= 0 && q <= a) by (nonlinear_arith)
            requires
                a == b * q + r,
                0 <= r < b,
                b >= 1,
                a >= 0,
        ;
    } else {
        assert(q <= 0 && a <= q) by (nonlinear_arith)
            requires
                a == b * q + r,
                0 <= r < b,
                b >= 1,
                a < 0,
        ;
    }
}

impl LineChart {
    /// The points in pixel space, for a plot with the given bounds and an
    /// axis that reaches `scale` at its top.
    pub fn scaled_points(&self, scale: i64, plot: Bounds) -> (scaled: Vec<Point>)
        ensures
            scaled@.len() == self.points@.len(),
            forall|i: int|
                0 <= i < scaled@.len() ==> #[trigger] scaled@[i] == projected(
                    self.points@[i],
                    range_of(self.points@).x as int,
                    scale as int,
                    plot,
                ),
    {
        let range = data_range(&self.points);
        let mut scaled: Vec<Point> = Vec::new();
        let mut i: usize = 0;
        while i < self.points.len()
            invariant
                i <= self.points.len(),
                range == range_of(self.points@),
                scaled@.len() == i,
                forall|j: int|
                    0 <= j < i ==> #[trigger] scaled@[j] == projected(
                        self.points@[j],
                        range.x as int,
                        scale as int,
                        plot,
                    ),
            decreases self.points.len() - i,
        {
            scaled.push(project(self.points[i], range.x, scale, plot));
            i = i + 1;
        }
        scaled
    }

    /// Lays the chart out in `bounds`: the labels, whose widths are given,
    /// get their room on both sides, the points go into the rest, for an
    /// axis that reaches `scale` at its top, and the curve goes through the
    /// points.
    pub fn prepaint(&self, bounds: Bounds, label_widths: &Vec<i32>, scale: i64) -> (ready: Prepaint)
        ensures
            ready.content_bounds.left == clamped(bounds.left + widest(label_widths@)),
            ready.content_bounds.width == clamped(bounds.width - 2 * widest(label_widths@)),
            ready.content_bounds.top == bounds.top,
            ready.content_bounds.height == bounds.height,
            ready.points@.len() == self.points@.len(),
            forall|i: int|
                0 <= i < ready.points@.len() ==> #[trigger] ready.points@[i] == projected(
                    self.points@[i],
                    range_of(self.points@).x as int,
                    scale as int,
                    ready.content_bounds,
                ),
            ready.points@.len() < 2 ==> ready.path@.len() == 0,
            ready.points@.len() >= 2 ==> ready.path@.len() == ready.points@.len() - 1,
            forall|i: int|
                0 <= i < ready.path@.len() ==> #[trigger] ready.path@[i] == segment_at(
                    ready.points@,
                    i,
                ),
    {
        let content_bounds = plot_bounds(bounds, label_margin(label_widths));
        let points = self.scaled_points(scale, content_bounds);
        let path = curve(&points);
        Prepaint { content_bounds, points, path }
    }

    /// The number of grid lines that the chart aims at in a plot of the
    /// given height.
    pub fn target_num_grid_lines(&self, height: i32) -> (count: u32)
        ensures
            count == grid_count(height as int, self.target_grid_lines_spacing as int),
    {
        target_grid_lines(height, self.target_grid_lines_spacing)
    }

    /// What the scale of the chart aims at in a plot of the given height.
    pub fn targets(&self, height: i32) -> (targets: ScaleTargets)
        ensures
            targets == targets_of(
                range_of(self.points@).y as int,
                self.scale_rounding as int,
                self.target_grid_lines_spacing as int,
                height as int,
            ),
            targets.num_grid_lines == 1000 * grid_count(
                height as int,
                self.target_grid_lines_spacing as int,
            ),
    {
        let count = self.target_num_grid_lines(height);
        let num_grid_lines: i64 = (count as i64) * 1000;
        match self.target_scale(count) {
            Some(axis) => ScaleTargets {
                num_grid_lines,
                scale: axis.scale,
                units_per_grid_line: axis.units_per_grid_line,
            },
            None => ScaleTargets { num_grid_lines, scale: 0, units_per_grid_line: 0 },
        }
    }

    /// The scale of the chart in the frame at `now`, in a plot of the given
    /// height: the state that the chart kept is eased towards what the
    /// scale aims at, and the grid lines stand where the eased number of
    /// lines puts them.
    pub fn frame(&self, state: Option<ScaleState>, height: i32, now: u64) -> (frame: ScaleFrame)
        ensures
            ({
                let targets = targets_of(
                    range_of(self.points@).y as int,
                    self.scale_rounding as int,
                    self.target_grid_lines_spacing as int,
                    height as int,
                );
                &&& frame.state == scale_frame(state, targets.num_grid_lines, targets.scale, now)
                &&& frame.animating == scale_moves(state, targets.num_grid_lines, targets.scale)
                &&& frame.units_per_grid_line == targets.units_per_grid_line
                &&& frame.state.num_grid_lines <= 0 ==> frame.grid_lines@.len() == 0
                &&& frame.state.num_grid_lines > 0 ==> frame.grid_lines@.len() == drawn_lines(
                    frame.state.num_grid_lines as int,
                ) + 1
                &&& forall|i: int|
                    0 <= i < frame.grid_lines@.len() ==> #[trigger] frame.grid_lines@[i]
                        == grid_line(
                        frame.state.num_grid_lines as int,
                        height as int,
                        targets.units_per_grid_line as int,
                        i,
                    )
            }),
    {
        let targets = self.targets(height);
        let (state, animating) = animate_scale(state, targets.num_grid_lines, targets.scale, now);
        let lines = grid_lines(state.num_grid_lines, height, targets.units_per_grid_line);
        ScaleFrame {
            state,
            animating,
            units_per_grid_line: targets.units_per_grid_line,
            grid_lines: lines,
        }
    }

    /// The scale of the value axis that the chart aims at with `count` grid
    /// lines.
    pub fn target_scale(&self, count: u32) -> (axis: Option<AxisScale>)
        ensures
            axis is Some ==> axis->0.scale >= range_of(self.points@).y,
            axis is None <==> self.scale_rounding == 0 || count == 0 || units_for(
                range_of(self.points@).y as int,
                self.scale_rounding as int,
                count as int,
            ) * count > i64::MAX,
            axis matches Some(a) ==> a.units_per_grid_line == units_for(
                range_of(self.points@).y as int,
                self.scale_rounding as int,
                count as int,
            ) && a.scale == a.units_per_grid_line * count,
    {
        let range = data_range(&self.points);
        proof {
            lemma_range_of(self.points@);
        }
        axis_scale(range.y as u32, self.scale_rounding, count)
    }
}

/// How far a grid line at the height `y` of a plot has grown, in millionths
/// of the plot's width before easing, when the chart's entrance stands at
/// `animation_progress`: lines grow from the bottom up, the bottom line from
/// the start and the top line from `GRID_LINES_SPAN` on, each for as long.
/// `None` for a line whose turn has not come.
pub open spec fn line_progress(animation_progress: int, y: int, height: int) -> Option<int> {
    let start = if height > 0 {
        (height - y) * GRID_LINES_SPAN / height
    } else {
        0
    };
    if animation_progress < start {
        None
    } else if (animation_progress - start) * MIX_ONE / (GRID_LINES_SPAN as int) > MIX_ONE {
        Some(MIX_ONE as int)
    } else {
        Some((animation_progress - start) * MIX_ONE / (GRID_LINES_SPAN as int))
    }
}

/// Computes `line_progress`.
pub fn grid_line_progress(animation_progress: u32, y: i32, height: i32) -> (progress: Option<u32>)
    ensures
        match progress {
            Some(p) => line_progress(animation_progress as int, y as int, height as int) == Some(
                p as int,
            ),
            None => line_progress(animation_progress as int, y as int, height as int) is None,
        },
{
    let start: i128 = if height > 0 {
        assert((height - y) * GRID_LINES_SPAN >= -0x1_0000_0000_0000_0000 && (height - y)
            * GRID_LINES_SPAN <= 0x1_0000_0000_0000_0000) by (nonlinear_arith)
            requires
                -0x1_0000_0000 <= height - y <= 0x1_0000_0000,
                GRID_LINES_SPAN == 375_000,
        ;
        floor_div(
            ((height as i128) - (y as i128)) * (GRID_LINES_SPAN as i128),
            height as i128,
        )
    } else {
        0
    };
    proof {
        assert((height - y) * GRID_LINES_SPAN >= -0x1_0000_0000_0000_0000 && (height - y)
            * GRID_LINES_SPAN <= 0x1_0000_0000_0000_0000) by (nonlinear_arith)
            requires
                -0x1_0000_0000 <= height - y <= 0x1_0000_0000,
                GRID_LINES_SPAN == 375_000,
        ;
        if height > 0 {
            lemma_quotient_bound((height - y) * GRID_LINES_SPAN, height as int);
        }
        assert(-0x1_0000_0000_0000_0000 <= start <= 0x1_0000_0000_0000_0000);
    }
    if (animation_progress as i128) < start {
        return None;
    }
    let ahead: i128 = animation_progress as i128 - start;
    assert(0 <= ahead * MIX_ONE <= 0x1_0000_0000_0000_0000_0000_0000) by (nonlinear_arith)
        requires
            0 <= ahead <= 0x4_0000_0000_0000_0000,
            MIX_ONE == 1_000_000,
    ;
    let grown: i128 = ahead * (MIX_ONE as i128) / (GRID_LINES_SPAN as i128);
    if grown > MIX_ONE as i128 {
        Some(MIX_ONE)
    } else {
        Some(grown as u32)
    }
}

/// How much of the curve shows when the chart's entrance stands at
/// `animation_progress`, in millionths: nothing up to `MAIN_LINE_DELAY`, all
/// of it at the end.
pub open spec fn curve_progress(animation_progress: int) -> int {
    if animation_progress <= MAIN_LINE_DELAY {
        0
    } else if (animation_progress - MAIN_LINE_DELAY) * MIX_ONE / (MIX_ONE - MAIN_LINE_DELAY)
        > MIX_ONE {
        MIX_ONE as int
    } else {
        (animation_progress - MAIN_LINE_DELAY) * MIX_ONE / (MIX_ONE - MAIN_LINE_DELAY)
    }
}

/// Computes `curve_progress`.
pub fn path_progress(animation_progress: u32) -> (progress: u32)
    ensures
        progress == curve_progress(animation_progress as int),
        progress <= MIX_ONE,
{
    if animation_progress <= MAIN_LINE_DELAY {
        0
    } else {
        let ahead: u64 = (animation_progress - MAIN_LINE_DELAY) as u64;
        assert(ahead * MIX_ONE <= 0xFFFF_FFFF * 1_000_000) by (nonlinear_arith)
            requires
                ahead <= 0xFFFF_FFFF,
                MIX_ONE == 1_000_000,
        ;
        let shown: u64 = ahead * (MIX_ONE as u64) / ((MIX_ONE - MAIN_LINE_DELAY) as u64);
        if shown > MIX_ONE as u64 {
            MIX_ONE
        } else {
            shown as u32
        }
    }
}

/// The right edge of the part of the plot that shows the curve.
pub open spec fn shown_edge(plot: Bounds, progress: int) -> int {
    plot.left + plot.width * progress / (MIX_ONE as int)
}

/// How many of the points are marked: the points up to the first that lies
/// right of the part of the plot that shows the curve.
pub fn visible_points(points: &Vec<Point>, plot: Bounds, progress: u32) -> (count: usize)
    ensures
        count <= points@.len(),
        forall|i: int|
            0 <= i < count ==> (#[trigger] points@[i]).x <= shown_edge(plot, progress as int),
        count < points@.len() ==> points@[count as int].x > shown_edge(plot, progress as int),
{
    assert(plot.width * progress >= -0x1_0000_0000_0000_0000 && plot.width * progress
        <= 0x1_0000_0000_0000_0000) by (nonlinear_arith)
        requires
            -0x8000_0000 <= plot.width <= 0x8000_0000,
            0 <= progress <= 0xFFFF_FFFF,
    ;
    let edge: i128 = plot.left as i128 + floor_div(
        (plot.width as i128) * (progress as i128),
        MIX_ONE as i128,
    );
    let mut count: usize = 0;
    while count < points.len() && (points[count].x as i128) <= edge
        invariant
            count <= points@.len(),
            edge == shown_edge(plot, progress as int),
            forall|i: int| 0 <= i < count ==> (#[trigger] points@[i]).x <= edge,
        decreases points@.len() - count,
    {
        count = count + 1;
    }
    count
}

} // verus!
