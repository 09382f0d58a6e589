use steno::animation::{Point, PX};
use steno::window::{
    get_resize_edge, resize_edge_cursor, ResizeCursor, ResizeEdge, Size, Tiling,
    CSD_RESIZE_EDGE_SIZE,
};

const FREE: Tiling = Tiling { top: false, bottom: false, left: false, right: false };
const SHADOW: i32 = 32 * PX;
const SIZE: Size = Size { width: 800 * PX, height: 600 * PX };

fn edge_at(x: i32, y: i32) -> Option<ResizeEdge> {
    get_resize_edge(Point { x: x * PX, y: y * PX }, SIZE, FREE, SHADOW)
}

#[test]
fn pointer_over_the_body_resizes_nothing() {
    assert_eq!(CSD_RESIZE_EDGE_SIZE, 16 * PX);
    assert_eq!(edge_at(400, 300), None);
    assert_eq!(edge_at(33, 33), None);
    assert_eq!(edge_at(767, 567), None);
}

#[test]
fn pointer_in_the_shadow_resizes_nothing() {
    assert_eq!(edge_at(400, 10), None);
    assert_eq!(edge_at(400, 16), None);
    assert_eq!(edge_at(5, 5), None);
    assert_eq!(edge_at(795, 300), None);
}

#[test]
fn pointer_in_a_band_resizes_its_edge() {
    assert_eq!(edge_at(400, 20), Some(ResizeEdge::Top));
    assert_eq!(edge_at(400, 32), Some(ResizeEdge::Top));
    assert_eq!(edge_at(400, 580), Some(ResizeEdge::Bottom));
    assert_eq!(edge_at(20, 300), Some(ResizeEdge::Left));
    assert_eq!(edge_at(780, 300), Some(ResizeEdge::Right));
}

#[test]
fn pointer_where_two_bands_cross_resizes_the_corner() {
    assert_eq!(edge_at(20, 20), Some(ResizeEdge::TopLeft));
    assert_eq!(edge_at(780, 20), Some(ResizeEdge::TopRight));
    assert_eq!(edge_at(20, 580), Some(ResizeEdge::BottomLeft));
    assert_eq!(edge_at(780, 580), Some(ResizeEdge::BottomRight));
    assert_eq!(edge_at(40, 20), Some(ResizeEdge::TopLeft));
    assert_eq!(edge_at(47, 20), Some(ResizeEdge::TopLeft));
    assert_eq!(edge_at(48, 20), Some(ResizeEdge::Top));
}

#[test]
fn tiled_sides_do_not_resize() {
    let tiled_top = Tiling { top: true, ..FREE };
    let at = |x: i32, y: i32, tiling: Tiling| {
        get_resize_edge(Point { x: x * PX, y: y * PX }, SIZE, tiling, SHADOW)
    };
    assert_eq!(at(400, 20, tiled_top), None);
    assert_eq!(at(20, 20, tiled_top), Some(ResizeEdge::Left));
    assert_eq!(at(20, 2, tiled_top), Some(ResizeEdge::Left));
    let tiled_all = Tiling { top: true, bottom: true, left: true, right: true };
    assert_eq!(at(20, 20, tiled_all), None);
    assert_eq!(at(0, 0, tiled_all), None);
    let tiled_left = Tiling { left: true, ..FREE };
    assert_eq!(at(20, 20, tiled_left), Some(ResizeEdge::Top));
    assert_eq!(at(20, 300, tiled_left), None);
}

#[test]
fn narrow_shadow_puts_the_band_at_the_outer_edge() {
    let at = |x: i32, y: i32| {
        get_resize_edge(Point { x: x * PX, y: y * PX }, SIZE, FREE, 8 * PX)
    };
    assert_eq!(at(400, 0), None);
    assert_eq!(at(400, 1), Some(ResizeEdge::Top));
    assert_eq!(at(400, 16), Some(ResizeEdge::Top));
    assert_eq!(at(400, 17), None);
    assert_eq!(at(1, 1), Some(ResizeEdge::TopLeft));
}

#[test]
fn pointer_shows_the_way_the_edge_moves() {
    assert_eq!(resize_edge_cursor(ResizeEdge::Top), ResizeCursor::UpDown);
    assert_eq!(resize_edge_cursor(ResizeEdge::Bottom), ResizeCursor::UpDown);
    assert_eq!(resize_edge_cursor(ResizeEdge::Left), ResizeCursor::LeftRight);
    assert_eq!(resize_edge_cursor(ResizeEdge::Right), ResizeCursor::LeftRight);
    assert_eq!(resize_edge_cursor(ResizeEdge::TopLeft), ResizeCursor::UpLeftDownRight);
    assert_eq!(resize_edge_cursor(ResizeEdge::BottomRight), ResizeCursor::UpLeftDownRight);
    assert_eq!(resize_edge_cursor(ResizeEdge::TopRight), ResizeCursor::UpRightDownLeft);
    assert_eq!(resize_edge_cursor(ResizeEdge::BottomLeft), ResizeCursor::UpRightDownLeft);
}
