use steno::animation::{approach, distance, farther_than, mix, Point, MIX_ONE, PX};
use steno::cursor::{
    cursor_pos, idle_time, AnimationState, Cursor, SNAP_DISTANCE, TELEPORT_DISTANCE,
};

fn cursor_at(x: i32, y: i32) -> Cursor {
    Cursor {
        line_height: 30 * PX,
        target_position: Point { x, y },
        text_origin: Point { x: 5 * PX, y: 7 * PX },
        animate_movement: true,
    }
}

#[test]
fn far_jump_snaps_to_the_target() {
    let cursor = cursor_at(150 * PX, 0);
    let mut state = AnimationState { position: Point { x: 0, y: 0 }, idle_start: 3 };
    let again = cursor.animate(&mut state, 16_000, 1_000_000);
    assert_eq!(state.position, Point { x: 150 * PX, y: 0 });
    assert_eq!(state.idle_start, 3);
    assert!(!again);
}

#[test]
fn jump_of_150_pixels_from_anywhere_snaps() {
    for (x, y) in [(10 * PX, 20 * PX), (-40 * PX, 3 * PX), (0, 0)] {
        let cursor = cursor_at(x + 90 * PX, y + 120 * PX);
        let mut state = AnimationState { position: Point { x, y }, idle_start: 0 };
        assert!(!cursor.animate(&mut state, 1, 50));
        assert_eq!(state.position, cursor.target_position);
    }
}

#[test]
fn near_target_glides() {
    let cursor = cursor_at(10 * PX, -20 * PX);
    let mut state = AnimationState { position: Point { x: 0, y: 0 }, idle_start: 3 };
    // Ten milliseconds at thirty per second: three tenths of the way.
    let again = cursor.animate(&mut state, 10_000, 77);
    assert!(again);
    assert_eq!(state.position, Point { x: 3 * PX, y: -6 * PX });
    assert_eq!(state.idle_start, 77);
    let again = cursor.animate(&mut state, 10_000, 88);
    assert!(again);
    assert_eq!(state.position, Point { x: 5_100, y: -10_200 });
    assert_eq!(state.idle_start, 88);
}

#[test]
fn long_frame_reaches_the_target() {
    let cursor = cursor_at(10 * PX, 10 * PX);
    let mut state = AnimationState { position: Point { x: 0, y: 0 }, idle_start: 0 };
    assert!(!cursor.animate(&mut state, 40_000, 9));
    assert_eq!(state.position, cursor.target_position);
    assert_eq!(state.idle_start, 9);
}

#[test]
fn target_within_half_a_pixel_snaps() {
    let cursor = cursor_at(300, 400);
    let mut state = AnimationState { position: Point { x: 0, y: 0 }, idle_start: 12 };
    assert!(!cursor.animate(&mut state, 1_000, 500));
    assert_eq!(state.position, Point { x: 300, y: 400 });
    assert_eq!(state.idle_start, 12);
}

#[test]
fn caret_at_rest_stays_at_rest() {
    let cursor = cursor_at(300, 400);
    let mut state = AnimationState { position: Point { x: 300, y: 400 }, idle_start: 12 };
    assert!(!cursor.animate(&mut state, 16_000, 500));
    assert_eq!(state, AnimationState { position: Point { x: 300, y: 400 }, idle_start: 12 });
}

#[test]
fn movement_that_is_not_animated_snaps() {
    let mut cursor = cursor_at(10 * PX, 10 * PX);
    cursor.animate_movement = false;
    let mut state = AnimationState { position: Point { x: 0, y: 0 }, idle_start: 0 };
    assert!(!cursor.animate(&mut state, 1_000, 500));
    assert_eq!(state.position, cursor.target_position);
}

#[test]
fn gliding_caret_arrives() {
    let cursor = cursor_at(60 * PX, 45 * PX);
    let mut state = AnimationState { position: Point { x: 0, y: 0 }, idle_start: 0 };
    let mut frames = 0;
    let mut now = 0;
    while cursor.animate(&mut state, 16_667, now) {
        now += 16_667;
        frames += 1;
        assert!(frames < 1000);
        assert!(state.position.x <= 60 * PX && state.position.y <= 45 * PX);
    }
    assert_eq!(state.position, cursor.target_position);
    assert!(frames > 1);
}

#[test]
fn thresholds_are_half_a_pixel_and_a_hundred_pixels() {
    assert_eq!(SNAP_DISTANCE as i32 * 2, PX);
    assert_eq!(TELEPORT_DISTANCE as i32, 100 * PX);
    let origin = Point { x: 0, y: 0 };
    assert!(!farther_than(origin, Point { x: 300, y: 400 }, SNAP_DISTANCE));
    assert!(farther_than(origin, Point { x: 300, y: 401 }, SNAP_DISTANCE));
    assert!(!farther_than(origin, Point { x: 60 * PX, y: 80 * PX }, TELEPORT_DISTANCE));
    assert!(farther_than(origin, Point { x: 60 * PX, y: 80 * PX + 1 }, TELEPORT_DISTANCE));
    assert!(farther_than(
        Point { x: i32::MIN, y: i32::MIN },
        Point { x: i32::MAX, y: i32::MAX },
        u32::MAX
    ));
}

#[test]
fn mix_grows_with_time_up_to_the_whole() {
    assert_eq!(mix(0, 30), 0);
    assert_eq!(mix(1, 30), 30);
    assert_eq!(mix(10_000, 30), 300_000);
    assert_eq!(mix(33_333, 30), 999_990);
    assert_eq!(mix(33_334, 30), MIX_ONE);
    assert_eq!(mix(u64::MAX, u32::MAX), MIX_ONE);
    assert_eq!(mix(1_000_000, 0), 0);
}

#[test]
fn approach_covers_a_share_of_the_way() {
    assert_eq!(approach(0, 1000, 500_000), 500);
    assert_eq!(approach(1000, 0, 500_000), 500);
    assert_eq!(approach(0, 1000, MIX_ONE), 1000);
    assert_eq!(approach(0, 1000, 0), 0);
    assert_eq!(approach(0, 3, 500_000), 2);
    assert_eq!(approach(0, -3, 500_000), -2);
    assert_eq!(approach(0, 1, 1), 1);
    assert_eq!(approach(-5, -5, 700_000), -5);
    assert_eq!(approach(i64::MIN, i64::MAX, MIX_ONE), i64::MAX);
    assert_eq!(approach(i64::MAX, i64::MIN, MIX_ONE), i64::MIN);
    assert_eq!(approach(i64::MIN, i64::MAX, 500_000), 0);
    assert_eq!(distance(i64::MIN, i64::MAX), u64::MAX);
    assert_eq!(distance(3, -4), 7);
}

#[test]
fn cursor_is_centred_under_the_glyph() {
    let glyph = Point { x: 100 * PX, y: 60 * PX };
    let wraps = vec![40, 80];
    let placed = cursor_pos(17, glyph, 12 * PX, &wraps, 30 * PX, 6 * PX, 10 * PX);
    assert_eq!(placed.glyph_position, glyph);
    assert_eq!(placed.cursor_position, Point { x: 101 * PX, y: 84 * PX });
}

#[test]
fn cursor_at_a_wrap_boundary_goes_to_the_next_line() {
    let glyph = Point { x: 400 * PX, y: 30 * PX };
    let wraps = vec![40, 80];
    let placed = cursor_pos(80, glyph, 12 * PX, &wraps, 30 * PX, 6 * PX, 10 * PX);
    assert_eq!(placed.glyph_position, Point { x: 0, y: 60 * PX });
    assert_eq!(placed.cursor_position, Point { x: PX, y: 84 * PX });
}

#[test]
fn cursor_width_is_a_third_of_the_line() {
    assert_eq!(cursor_at(0, 0).width(), 10 * PX);
    let fresh = Cursor::new();
    assert_eq!(fresh.width(), 0);
    assert!(fresh.animate_movement);
    assert_eq!(fresh.target_position, Point { x: 0, y: 0 });
}

#[test]
fn element_position_adds_the_text_origin() {
    let cursor = cursor_at(0, 0);
    let state = AnimationState { position: Point { x: 3 * PX, y: -2 * PX }, idle_start: 0 };
    assert_eq!(cursor.element_position(&state), Point { x: 8 * PX, y: 5 * PX });
    let far = AnimationState { position: Point { x: i32::MAX, y: i32::MIN }, idle_start: 0 };
    assert_eq!(cursor.element_position(&far), Point { x: i32::MAX, y: i32::MIN + 7 * PX });
}

#[test]
fn idle_time_runs_from_the_last_movement() {
    let state = AnimationState { position: Point { x: 0, y: 0 }, idle_start: 1_000 };
    assert_eq!(idle_time(&state, 1_500), 500);
    assert_eq!(idle_time(&state, 1_000), 0);
    assert_eq!(idle_time(&state, 10), 0);
}
