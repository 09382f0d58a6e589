//! The frame of a window that draws its own decorations: which edge of the
//! window the pointer would resize.

use crate::animation::Point;
use vstd::prelude::*;

verus! {

/// The width of the band along each edge in which the pointer resizes the
/// window: sixteen pixels.
pub const CSD_RESIZE_EDGE_SIZE: i32 = 16_000;

/// The sides on which the window is tiled against the screen or another
/// window, and so cannot be resized.
#[derive(Clone, Copy, Debug, PartialEq, Eq, Structural)]
pub struct Tiling {
    pub top: bool,
    pub bottom: bool,
    pub left: bool,
    pub right: bool,
}

/// The size of a window.
#[derive(Clone, Copy, Debug, PartialEq, Eq, Structural)]
pub struct Size {
    pub width: i32,
    pub height: i32,
}

/// An edge or a corner of the window.
#[derive(Clone, Copy, Debug, PartialEq, Eq, Structural)]
pub enum ResizeEdge {
    Top,
    TopRight,
    Right,
    BottomRight,
    Bottom,
    BottomLeft,
    Left,
    TopLeft,
}

/// The shape of the pointer over an edge or a corner of the window.
#[derive(Clone, Copy, Debug, PartialEq, Eq, Structural)]
pub enum ResizeCursor {
    UpDown,
    LeftRight,
    UpLeftDownRight,
    UpRightDownLeft,
}

/// The shape of the pointer over the edge: it shows the two ways in which
/// the edge moves.
pub fn resize_edge_cursor(edge: ResizeEdge) -> (cursor: ResizeCursor)
    ensures
        cursor == match edge {
            ResizeEdge::Top | ResizeEdge::Bottom => ResizeCursor::UpDown,
            ResizeEdge::Left | ResizeEdge::Right => ResizeCursor::LeftRight,
            ResizeEdge::TopLeft | ResizeEdge::BottomRight => ResizeCursor::UpLeftDownRight,
            ResizeEdge::TopRight | ResizeEdge::BottomLeft => ResizeCursor::UpRightDownLeft,
        },
{
    match edge {
        ResizeEdge::Top | ResizeEdge::Bottom => ResizeCursor::UpDown,
        ResizeEdge::Left | ResizeEdge::Right => ResizeCursor::LeftRight,
        ResizeEdge::TopLeft | ResizeEdge::BottomRight => ResizeCursor::UpLeftDownRight,
        ResizeEdge::TopRight | ResizeEdge::BottomLeft => ResizeCursor::UpRightDownLeft,
    }
}

/// How far inside the outer bounds the resize band begins: the shadow
/// reaches farther out than the band where it is wider than the band.
pub open spec fn outer_inset(shadow_size: int) -> int {
    if shadow_size - CSD_RESIZE_EDGE_SIZE > 0 {
        shadow_size - CSD_RESIZE_EDGE_SIZE
    } else {
        0
    }
}

/// How far inside the outer bounds the body of the window begins.
pub open spec fn body_inset(shadow_size: int) -> int {
    outer_inset(shadow_size) + CSD_RESIZE_EDGE_SIZE
}

/// How far inside the outer bounds the resize band ends.
pub open spec fn inner_inset(shadow_size: int) -> int {
    body_inset(shadow_size) + CSD_RESIZE_EDGE_SIZE
}

/// The pointer is over the body of the window: on every side that is not
/// tiled it lies inside the body.
pub open spec fn over_body(position: Point, size: Size, tiling: Tiling, shadow_size: int)
    -> bool {
    &&& tiling.top || position.y > body_inset(shadow_size)
    &&& tiling.bottom || position.y < size.height - body_inset(shadow_size)
    &&& tiling.left || position.x > body_inset(shadow_size)
    &&& tiling.right || position.x < size.width - body_inset(shadow_size)
}

/// The pointer is in the band along the top edge.
pub open spec fn near_top(position: Point, tiling: Tiling, shadow_size: int) -> bool {
    !tiling.top && outer_inset(shadow_size) < position.y < inner_inset(shadow_size)
}

/// The pointer is in the band along the bottom edge.
pub open spec fn near_bottom(position: Point, size: Size, tiling: Tiling, shadow_size: int)
    -> bool {
    !tiling.bottom && size.height - inner_inset(shadow_size) < position.y < size.height
        - outer_inset(shadow_size)
}

/// The pointer is in the band along the left edge.
pub open spec fn near_left(position: Point, tiling: Tiling, shadow_size: int) -> bool {
    !tiling.left && outer_inset(shadow_size) < position.x < inner_inset(shadow_size)
}

/// The pointer is in the band along the right edge.
pub open spec fn near_right(position: Point, size: Size, tiling: Tiling, shadow_size: int)
    -> bool {
    !tiling.right && size.width - inner_inset(shadow_size) < position.x < size.width
        - outer_inset(shadow_size)
}

/// The pointer is clear of the inner side of the band along the left and
/// the right edge.
pub open spec fn clear_of_sides(position: Point, size: Size, tiling: Tiling, shadow_size: int)
    -> bool {
    &&& tiling.left || position.x >= inner_inset(shadow_size)
    &&& tiling.right || position.x <= size.width - inner_inset(shadow_size)
}

/// The pointer is clear of the inner side of the band along the top and the
/// bottom edge.
pub open spec fn clear_of_ends(position: Point, size: Size, tiling: Tiling, shadow_size: int)
    -> bool {
    &&& tiling.top || position.y >= inner_inset(shadow_size)
    &&& tiling.bottom || position.y <= size.height - inner_inset(shadow_size)
}

/// The edge that the pointer would resize: none over the body of the
/// window; a corner where two bands cross, the first of top left, top
/// right, bottom left and bottom right that applies; else an edge whose
/// band the pointer is in while clear of the bands that cross it.
pub open spec fn resize_edge_at(position: Point, size: Size, tiling: Tiling, shadow_size: int)
    -> Option<ResizeEdge> {
    let top = near_top(position, tiling, shadow_size);
    let bottom = near_bottom(position, size, tiling, shadow_size);
    let left = near_left(position, tiling, shadow_size);
    let right = near_right(position, size, tiling, shadow_size);
    if over_body(position, size, tiling, shadow_size) {
        None
    } else if top && left {
        Some(ResizeEdge::TopLeft)
    } else if top && right {
        Some(ResizeEdge::TopRight)
    } else if bottom && left {
        Some(ResizeEdge::BottomLeft)
    } else if bottom && right {
        Some(ResizeEdge::BottomRight)
    } else if top && clear_of_sides(position, size, tiling, shadow_size) {
        Some(ResizeEdge::Top)
    } else if bottom && clear_of_sides(position, size, tiling, shadow_size) {
        Some(ResizeEdge::Bottom)
    } else if left && clear_of_ends(position, size, tiling, shadow_size) {
        Some(ResizeEdge::Left)
    } else if right && clear_of_ends(position, size, tiling, shadow_size) {
        Some(ResizeEdge::Right)
    } else {
        None
    }
}

/// Computes `resize_edge_at`.
pub fn get_resize_edge(
    position: Point,
    outer_window_size: Size,
    tiling: Tiling,
    shadow_size: i32,
) -> (edge: Option<ResizeEdge>)
    ensures
        edge == resize_edge_at(position, outer_window_size, tiling, shadow_size as int),
{
    let x: i64 = position.x as i64;
    let y: i64 = position.y as i64;
    let width: i64 = outer_window_size.width as i64;
    let height: i64 = outer_window_size.height as i64;
    let band: i64 = CSD_RESIZE_EDGE_SIZE as i64;
    let resize_edge_outer_inset: i64 = if shadow_size as i64 - band > 0 {
        shadow_size as i64 - band
    } else {
        0
    };
    let window_bounds_inset: i64 = resize_edge_outer_inset + band;
    let resize_edge_inner_inset: i64 = window_bounds_inset + band;

    // Check for window obstruction
    if (tiling.top || y > window_bounds_inset) && (tiling.bottom || y < height
        - window_bounds_inset) && (tiling.left || x > window_bounds_inset) && (tiling.right || x
        < width - window_bounds_inset) {
        return None;
    }
    // Get resize edge

    let top = !tiling.top && y > resize_edge_outer_inset;
    let bottom = !tiling.bottom && y < height - resize_edge_outer_inset;
    let left = !tiling.left && x > resize_edge_outer_inset;
    let right = !tiling.right && x < width - resize_edge_outer_inset;

    let top_inner = !tiling.top && y < resize_edge_inner_inset;
    let bottom_inner = !tiling.bottom && y > height - resize_edge_inner_inset;
    let left_inner = !tiling.left && x < resize_edge_inner_inset;
    let right_inner = !tiling.right && x > width - resize_edge_inner_inset;

    if top && left && top_inner && left_inner {
        Some(ResizeEdge::TopLeft)
    } else if top && right && top_inner && right_inner {
        Some(ResizeEdge::TopRight)
    } else if bottom && left && bottom_inner && left_inner {
        Some(ResizeEdge::BottomLeft)
    } else if bottom && right && bottom_inner && right_inner {
        Some(ResizeEdge::BottomRight)
    } else if top && top_inner && !left_inner && !right_inner {
        Some(ResizeEdge::Top)
    } else if bottom && bottom_inner && !left_inner && !right_inner {
        Some(ResizeEdge::Bottom)
    } else if left && !top_inner && !bottom_inner && left_inner {
        Some(ResizeEdge::Left)
    } else if right && !top_inner && !bottom_inner && right_inner {
        Some(ResizeEdge::Right)
    } else {
        None
    }
}

/// A side on which the window is tiled is never resized, neither by its
/// edge nor by a corner on it.
pub proof fn lemma_tiled_sides_do_not_resize(
    position: Point,
    size: Size,
    tiling: Tiling,
    shadow_size: int,
)
    ensures
        ({
            let edge = resize_edge_at(position, size, tiling, shadow_size);
            &&& tiling.top ==> edge != Some(ResizeEdge::Top) && edge != Some(ResizeEdge::TopLeft)
                && edge != Some(ResizeEdge::TopRight)
            &&& tiling.bottom ==> edge != Some(ResizeEdge::Bottom) && edge != Some(
                ResizeEdge::BottomLeft,
            ) && edge != Some(ResizeEdge::BottomRight)
            &&& tiling.left ==> edge != Some(ResizeEdge::Left) && edge != Some(
                ResizeEdge::TopLeft,
            ) && edge != Some(ResizeEdge::BottomLeft)
            &&& tiling.right ==> edge != Some(ResizeEdge::Right) && edge != Some(
                ResizeEdge::TopRight,
            ) && edge != Some(ResizeEdge::BottomRight)
        }),
{
}

} // verus!
