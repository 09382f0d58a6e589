//! The caret on screen: where the layout puts it, and the eased position
//! that follows it from frame to frame.

use crate::animation::{
    approach, approached, clamp_i32, clamped, distance_squared, farther_than, floor_div,
    lemma_approached, mix, mix_for, Point,
};
use vstd::prelude::*;

verus! {

/// Below this distance from its target the caret snaps to it: half a pixel.
pub const SNAP_DISTANCE: u32 = 500;

/// Beyond this distance from its target the caret jumps to it without
/// gliding: a hundred pixels.
pub const TELEPORT_DISTANCE: u32 = 100_000;

/// The share of the distance that the caret covers per second, in wholes.
pub const CURSOR_RATE: u32 = 30;

/// The height of the caret: two pixels.
pub const CURSOR_HEIGHT: i32 = 2000;

/// What the text view tells the caret after each layout.
#[derive(Clone, Copy, Debug, PartialEq, Eq, Structural)]
pub struct Cursor {
    pub line_height: i32,
    pub target_position: Point,
    pub text_origin: Point,
    pub animate_movement: bool,
}

/// What the caret keeps from frame to frame.
#[derive(Clone, Copy, Debug, PartialEq, Eq, Structural)]
pub struct AnimationState {
    /// Where the caret is painted, relative to the text.
    pub position: Point,
    /// When the caret last moved, in microseconds.
    pub idle_start: u64,
}

/// Where the layout puts the glyph under the caret, and the caret itself.
#[derive(Clone, Copy, Debug, PartialEq, Eq, Structural)]
pub struct CursorPlacement {
    pub glyph_position: Point,
    pub cursor_position: Point,
}

/// Whether the byte offset is the first of a wrapped line.
pub open spec fn starts_wrapped_line(wraps: Seq<usize>, utf8_idx: usize) -> bool {
    exists|i: int| 0 <= i < wraps.len() && wraps[i] == utf8_idx
}

/// Where the glyph under the caret counts as standing: where the layout
/// puts it, but at the start of the next line where the layout wraps the
/// line right before it.
pub open spec fn glyph_spot(glyph: Point, line_height: i32, wrapped: bool) -> Point {
    if wrapped {
        Point { x: 0, y: clamped(glyph.y + line_height) as i32 }
    } else {
        glyph
    }
}

/// Where the caret goes: centred under the glyph, on the line's baseline.
pub open spec fn cursor_spot(
    glyph: Point,
    glyph_width: i32,
    cursor_width: i32,
    line_height: i32,
    descent: i32,
) -> Point {
    Point {
        x: clamped(glyph.x + glyph_width / 2 - cursor_width / 2) as i32,
        y: clamped(glyph.y + line_height - descent) as i32,
    }
}

/// Half of `v`, rounded down.
fn half(v: i32) -> (h: i32)
    ensures
        h == v / 2,
{
    floor_div(v as i128, 2) as i32
}

/// Places the caret from what the layout reports of the glyph at the byte
/// offset `utf8_idx`: its position, its width, and the byte offsets at which
/// the layout wraps the line.
pub fn cursor_pos(
    utf8_idx: usize,
    glyph_position: Point,
    glyph_width: i32,
    wraps: &Vec<usize>,
    line_height: i32,
    descent: i32,
    cursor_width: i32,
) -> (placement: CursorPlacement)
    ensures
        placement.glyph_position == glyph_spot(
            glyph_position,
            line_height,
            starts_wrapped_line(wraps@, utf8_idx),
        ),
        placement.cursor_position == cursor_spot(
            placement.glyph_position,
            glyph_width,
            cursor_width,
            line_height,
            descent,
        ),
{
    let mut wrapped = false;
    let mut i: usize = 0;
    while i < wraps.len()
        invariant
            i <= wraps.len(),
            wrapped == starts_wrapped_line(wraps@.subrange(0, i as int), utf8_idx),
        decreases wraps.len() - i,
    {
        if wraps[i] == utf8_idx {
            wrapped = true;
        }
        proof {
            let seen = wraps@.subrange(0, i as int);
            let next = wraps@.subrange(0, i + 1);
            if starts_wrapped_line(seen, utf8_idx) {
                let k = choose|k: int| 0 <= k < seen.len() && seen[k] == utf8_idx;
                assert(next[k] == utf8_idx);
            }
            if wraps[i as int] == utf8_idx {
                assert(next[i as int] == utf8_idx);
            }
            if starts_wrapped_line(next, utf8_idx) {
                let k = choose|k: int| 0 <= k < next.len() && next[k] == utf8_idx;
                if k < i {
                    assert(seen[k] == utf8_idx);
                }
            }
        }
        i = i + 1;
    }
    assert(wraps@.subrange(0, i as int) =~= wraps@);
    let glyph = if wrapped {
        Point { x: 0, y: clamp_i32(glyph_position.y as i64 + line_height as i64) }
    } else {
        glyph_position
    };
    let x = clamp_i32(glyph.x as i64 + half(glyph_width) as i64 - half(cursor_width) as i64);
    let y = clamp_i32(glyph.y as i64 + line_height as i64 - descent as i64);
    CursorPlacement { glyph_position: glyph, cursor_position: Point { x, y } }
}

impl Cursor {
    /// The caret before the first layout.
    pub fn new() -> (cursor: Cursor)
        ensures
            cursor == (Cursor {
                line_height: 0,
                target_position: Point { x: 0, y: 0 },
                text_origin: Point { x: 0, y: 0 },
                animate_movement: true,
            }),
    {
        Cursor {
            line_height: 0,
            target_position: Point { x: 0, y: 0 },
            text_origin: Point { x: 0, y: 0 },
            animate_movement: true,
        }
    }

    /// The width of the caret: a third of the line height, rounded down.
    pub fn width(&self) -> (w: i32)
        ensures
            w == self.line_height / 3,
    {
        floor_div(self.line_height as i128, 3) as i32
    }

    /// The caret glides: movement is animated, and the target lies neither
    /// within the snap distance nor beyond the teleport distance.
    pub open spec fn glides(self, position: Point) -> bool {
        &&& self.animate_movement
        &&& distance_squared(position, self.target_position) > SNAP_DISTANCE * SNAP_DISTANCE
        &&& distance_squared(position, self.target_position) <= TELEPORT_DISTANCE
            * TELEPORT_DISTANCE
    }

    /// The caret's state after a frame that comes `elapsed_us` microseconds
    /// after the last, at the time `now`. A gliding caret covers a share of
    /// the way to its target and counts as moving; any other stands on its
    /// target.
    pub open spec fn frame(self, state: AnimationState, elapsed_us: u64, now: u64)
        -> AnimationState {
        if self.glides(state.position) {
            AnimationState {
                position: Point {
                    x: approached(
                        state.position.x as int,
                        self.target_position.x as int,
                        mix_for(elapsed_us as nat, CURSOR_RATE as nat),
                    ) as i32,
                    y: approached(
                        state.position.y as int,
                        self.target_position.y as int,
                        mix_for(elapsed_us as nat, CURSOR_RATE as nat),
                    ) as i32,
                },
                idle_start: now,
            }
        } else {
            AnimationState { position: self.target_position, idle_start: state.idle_start }
        }
    }

    /// Advances the caret by one frame, and tells whether another frame is
    /// due because the caret has not reached its target.
    pub fn animate(&self, state: &mut AnimationState, elapsed_us: u64, now: u64) -> (again: bool)
        ensures
            *final(state) == self.frame(*old(state), elapsed_us, now),
            again == (final(state).position != self.target_position),
    {
        let target = self.target_position;
        if self.animate_movement && farther_than(state.position, target, SNAP_DISTANCE)
            && !farther_than(state.position, target, TELEPORT_DISTANCE) {
            let share = mix(elapsed_us, CURSOR_RATE);
            proof {
                lemma_approached(state.position.x as int, target.x as int, share as nat);
                lemma_approached(state.position.y as int, target.y as int, share as nat);
            }
            state.position = Point {
                x: approach(state.position.x as i64, target.x as i64, share) as i32,
                y: approach(state.position.y as i64, target.y as i64, share) as i32,
            };
            state.idle_start = now;
        } else {
            state.position = target;
        }
        state.position.x != target.x || state.position.y != target.y
    }

    /// Where to paint the caret in the window.
    pub fn element_position(&self, state: &AnimationState) -> (at: Point)
        ensures
            at.x == clamped(state.position.x + self.text_origin.x),
            at.y == clamped(state.position.y + self.text_origin.y),
    {
        Point {
            x: clamp_i32(state.position.x as i64 + self.text_origin.x as i64),
            y: clamp_i32(state.position.y as i64 + self.text_origin.y as i64),
        }
    }
}

/// The time, in microseconds, for which the caret has stood still.
pub fn idle_time(state: &AnimationState, now: u64) -> (idle: u64)
    ensures
        idle == if now >= state.idle_start {
            now - state.idle_start
        } else {
            0
        },
{
    if now >= state.idle_start {
        now - state.idle_start
    } else {
        0
    }
}

/// A target that lies beyond the teleport distance is reached in one frame,
/// whatever the time since the last frame: the caret does not glide there.
pub proof fn lemma_far_target_snaps(
    cursor: Cursor,
    state: AnimationState,
    elapsed_us: u64,
    now: u64,
)
    requires
        distance_squared(state.position, cursor.target_position) > TELEPORT_DISTANCE
            * TELEPORT_DISTANCE,
    ensures
        cursor.frame(state, elapsed_us, now).position == cursor.target_position,
        cursor.frame(state, elapsed_us, now).idle_start == state.idle_start,
{
}

/// A caret that stands on its target stays there, and a caret within the
/// snap distance reaches it in one frame.
pub proof fn lemma_near_target_snaps(
    cursor: Cursor,
    state: AnimationState,
    elapsed_us: u64,
    now: u64,
)
    requires
        distance_squared(state.position, cursor.target_position) <= SNAP_DISTANCE * SNAP_DISTANCE,
    ensures
        cursor.frame(state, elapsed_us, now).position == cursor.target_position,
{
}

/// A gliding caret keeps each coordinate between where it was and its
/// target.
pub proof fn lemma_glide_stays_between(
    cursor: Cursor,
    state: AnimationState,
    elapsed_us: u64,
    now: u64,
)
    ensures
        ({
            let next = cursor.frame(state, elapsed_us, now).position;
            let target = cursor.target_position;
            &&& state.position.x <= target.x ==> state.position.x <= next.x <= target.x
            &&& target.x <= state.position.x ==> target.x <= next.x <= state.position.x
            &&& state.position.y <= target.y ==> state.position.y <= next.y <= target.y
            &&& target.y <= state.position.y ==> target.y <= next.y <= state.position.y
        }),
{
    let share = mix_for(elapsed_us as nat, CURSOR_RATE as nat);
    lemma_approached(state.position.x as int, cursor.target_position.x as int, share);
    lemma_approached(state.position.y as int, cursor.target_position.y as int, share);
}

} // verus!
