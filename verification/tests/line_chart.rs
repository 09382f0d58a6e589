use steno::animation::{Point, MIX_ONE, PX};
use steno::line_chart::{
    animate_scale, axis_scale, data_range, grid_line_progress, grid_lines, label_margin,
    path_progress, plot_bounds, project, target_grid_lines, visible_points, AxisScale, Bounds,
    GridLine, LineChart, ScaleState, ScaleTargets, MIN_LABEL_WIDTH,
};

fn chart(points: Vec<Point>) -> LineChart {
    LineChart {
        target_grid_lines_spacing: 64 * PX,
        scale_rounding: 5_000,
        animation_progress: MIX_ONE,
        points,
    }
}

fn samples() -> Vec<Point> {
    [60_000, 123_000, 96_000, 84_000]
        .iter()
        .enumerate()
        .map(|(i, wpm)| Point { x: i as i32 * 1000, y: *wpm })
        .collect()
}

#[test]
fn data_range_is_the_largest_of_each_coordinate() {
    assert_eq!(data_range(&samples()), Point { x: 3_000, y: 123_000 });
    assert_eq!(data_range(&vec![]), Point { x: 0, y: 0 });
    assert_eq!(data_range(&vec![Point { x: -5, y: -7 }]), Point { x: 0, y: 0 });
    assert_eq!(
        data_range(&vec![Point { x: 9, y: -7 }, Point { x: 2, y: 4 }]),
        Point { x: 9, y: 4 }
    );
}

#[test]
fn grid_line_count_is_rounded_to_the_nearest() {
    assert_eq!(target_grid_lines(256 * PX, 64 * PX), 4);
    assert_eq!(target_grid_lines(287_999, 64 * PX), 4);
    assert_eq!(target_grid_lines(288 * PX, 64 * PX), 5);
    assert_eq!(target_grid_lines(31_999, 64 * PX), 0);
    assert_eq!(target_grid_lines(32 * PX, 64 * PX), 1);
    assert_eq!(target_grid_lines(0, 64 * PX), 0);
    assert_eq!(target_grid_lines(-PX, 64 * PX), 0);
    assert_eq!(target_grid_lines(i32::MAX, 1), i32::MAX as u32);
    assert_eq!(chart(vec![]).target_num_grid_lines(300 * PX), 5);
}

#[test]
fn axis_scale_reaches_the_largest_value() {
    assert_eq!(
        axis_scale(123_000, 5_000, 4),
        Some(AxisScale { units_per_grid_line: 35_000, scale: 140_000 })
    );
    assert_eq!(
        axis_scale(120_000, 5_000, 4),
        Some(AxisScale { units_per_grid_line: 30_000, scale: 120_000 })
    );
    assert_eq!(
        axis_scale(120_001, 5_000, 4),
        Some(AxisScale { units_per_grid_line: 35_000, scale: 140_000 })
    );
    assert_eq!(
        axis_scale(1, 5_000, 7),
        Some(AxisScale { units_per_grid_line: 5_000, scale: 35_000 })
    );
    assert_eq!(axis_scale(0, 5_000, 4), Some(AxisScale { units_per_grid_line: 0, scale: 0 }));
    assert_eq!(
        chart(samples()).target_scale(4),
        Some(AxisScale { units_per_grid_line: 35_000, scale: 140_000 })
    );
}

#[test]
fn axis_without_lines_or_rounding_has_no_scale() {
    assert_eq!(axis_scale(123_000, 5_000, 0), None);
    assert_eq!(axis_scale(123_000, 0, 4), None);
    assert_eq!(axis_scale(1, u32::MAX, u32::MAX), None);
    assert_eq!(
        axis_scale(u32::MAX, u32::MAX, 1),
        Some(AxisScale { units_per_grid_line: u32::MAX as i64, scale: u32::MAX as i64 })
    );
}

#[test]
fn new_chart_starts_on_its_targets() {
    let (state, again) = animate_scale(None, 4_000, 140_000, 99);
    assert_eq!(state, ScaleState { num_grid_lines: 4_000, scale: 140_000, last_frame: None });
    assert!(!again);
    let (next, again) = animate_scale(Some(state), 4_000, 140_000, 199);
    assert_eq!(next, state);
    assert!(!again);
}

#[test]
fn scale_eases_towards_a_new_target() {
    let rest = ScaleState { num_grid_lines: 4_000, scale: 140_000, last_frame: None };
    // The first frame after rest only starts the clock.
    let (state, again) = animate_scale(Some(rest), 6_000, 100_000, 1_000_000);
    assert!(again);
    assert_eq!(
        state,
        ScaleState { num_grid_lines: 4_000, scale: 140_000, last_frame: Some(1_000_000) }
    );
    // Twenty milliseconds at five per second: a tenth of the way.
    let (state, again) = animate_scale(Some(state), 6_000, 100_000, 1_020_000);
    assert!(again);
    assert_eq!(
        state,
        ScaleState { num_grid_lines: 4_200, scale: 136_000, last_frame: Some(1_020_000) }
    );
    let (state, again) = animate_scale(Some(state), 6_000, 100_000, 1_040_000);
    assert!(again);
    assert_eq!(state.num_grid_lines, 4_380);
    assert_eq!(state.scale, 132_400);
}

#[test]
fn scale_settles_after_a_time_constant_and_stops() {
    let moving = ScaleState { num_grid_lines: 4_000, scale: 140_000, last_frame: Some(0) };
    let (state, again) = animate_scale(Some(moving), 6_000, 100_000, 200_000);
    assert!(again);
    assert_eq!(state.num_grid_lines, 6_000);
    assert_eq!(state.scale, 100_000);
    let (state, again) = animate_scale(Some(state), 6_000, 100_000, 216_000);
    assert!(!again);
    assert_eq!(state, ScaleState { num_grid_lines: 6_000, scale: 100_000, last_frame: None });
}

#[test]
fn scale_settles_over_many_frames_and_stops() {
    let mut state = ScaleState { num_grid_lines: 4_000, scale: 140_000, last_frame: None };
    let mut now = 0;
    let mut frames = 0;
    loop {
        let (next, again) = animate_scale(Some(state), 6_000, 100_000, now);
        assert!((6_000 - next.num_grid_lines).abs() <= (6_000 - state.num_grid_lines).abs());
        assert!((100_000 - next.scale).abs() <= (100_000 - state.scale).abs());
        state = next;
        if !again {
            break;
        }
        now += 16_667;
        frames += 1;
        assert!(frames < 1000);
    }
    assert_eq!(state, ScaleState { num_grid_lines: 6_000, scale: 100_000, last_frame: None });
    assert!(frames > 2);
    let (after, again) = animate_scale(Some(state), 6_000, 100_000, now + 16_667);
    assert!(!again);
    assert_eq!(after, state);
}

#[test]
fn scale_within_the_tolerance_snaps() {
    let near = ScaleState { num_grid_lines: 5_990, scale: 100_010, last_frame: None };
    let (state, again) = animate_scale(Some(near), 6_000, 100_000, 5);
    assert!(!again);
    assert_eq!(state, ScaleState { num_grid_lines: 6_000, scale: 100_000, last_frame: None });
    let off = ScaleState { num_grid_lines: 5_989, scale: 100_000, last_frame: None };
    let (state, again) = animate_scale(Some(off), 6_000, 100_000, 5);
    assert!(again);
    assert_eq!(state.num_grid_lines, 5_989);
    assert_eq!(state.last_frame, Some(5));
}

#[test]
fn grid_lines_at_rest() {
    let lines = grid_lines(4_000, 256 * PX, 35_000);
    assert_eq!(
        lines,
        vec![
            GridLine { y: 0, visibility: 1000, label: 140_000 },
            GridLine { y: 64 * PX, visibility: 1000, label: 105_000 },
            GridLine { y: 128 * PX, visibility: 1000, label: 70_000 },
            GridLine { y: 192 * PX, visibility: 1000, label: 35_000 },
            GridLine { y: 256 * PX, visibility: 1000, label: 0 },
        ]
    );
}

#[test]
fn grid_lines_slide_in_from_the_top() {
    let lines = grid_lines(4_500, 270 * PX, 30_000);
    assert_eq!(
        lines,
        vec![
            GridLine { y: 0, visibility: 500, label: 150_000 },
            GridLine { y: 30 * PX, visibility: 1000, label: 120_000 },
            GridLine { y: 90 * PX, visibility: 1000, label: 90_000 },
            GridLine { y: 150 * PX, visibility: 1000, label: 60_000 },
            GridLine { y: 210 * PX, visibility: 1000, label: 30_000 },
            GridLine { y: 270 * PX, visibility: 1000, label: 0 },
        ]
    );
}

#[test]
fn chart_without_grid_lines_draws_none() {
    assert!(grid_lines(0, 256 * PX, 35_000).is_empty());
    assert!(grid_lines(-1_000, 256 * PX, 35_000).is_empty());
    assert_eq!(grid_lines(1, 256 * PX, 35_000).len(), 2);
}

#[test]
fn labels_get_room_on_both_sides() {
    assert_eq!(label_margin(&vec![]), MIN_LABEL_WIDTH);
    assert_eq!(label_margin(&vec![12 * PX, 39 * PX]), 40 * PX);
    assert_eq!(label_margin(&vec![12 * PX, 52 * PX, 41 * PX]), 52 * PX);
    let bounds = Bounds { left: 10 * PX, top: 20 * PX, width: 500 * PX, height: 300 * PX };
    assert_eq!(
        plot_bounds(bounds, 40 * PX),
        Bounds { left: 50 * PX, top: 20 * PX, width: 420 * PX, height: 300 * PX }
    );
}

#[test]
fn points_are_projected_into_the_plot() {
    let plot = Bounds { left: 50 * PX, top: 20 * PX, width: 420 * PX, height: 280 * PX };
    let scaled = chart(samples()).scaled_points(140_000, plot);
    assert_eq!(
        scaled,
        vec![
            Point { x: 50 * PX, y: 180 * PX },
            Point { x: 190 * PX, y: 54 * PX },
            Point { x: 330 * PX, y: 108 * PX },
            Point { x: 470 * PX, y: 132 * PX },
        ]
    );
    assert_eq!(
        project(Point { x: 1, y: 1 }, 3, 3, plot),
        Point { x: 190 * PX, y: 206_667 }
    );
    assert_eq!(
        project(Point { x: -1, y: -1 }, 3, 3, plot),
        Point { x: -90 * PX, y: 393_334 }
    );
}

#[test]
fn data_without_range_or_scale_lies_on_the_edges() {
    let plot = Bounds { left: 50 * PX, top: 20 * PX, width: 420 * PX, height: 280 * PX };
    let single = chart(vec![Point { x: 0, y: 60_000 }]);
    assert_eq!(single.scaled_points(0, plot), vec![Point { x: 50 * PX, y: 300 * PX }]);
    assert_eq!(single.scaled_points(120_000, plot), vec![Point { x: 50 * PX, y: 160 * PX }]);
}

#[test]
fn grid_lines_grow_from_the_bottom_up() {
    let height = 256 * PX;
    assert_eq!(grid_line_progress(0, height, height), Some(0));
    assert_eq!(grid_line_progress(187_500, height, height), Some(500_000));
    assert_eq!(grid_line_progress(375_000, height, height), Some(MIX_ONE));
    assert_eq!(grid_line_progress(MIX_ONE, height, height), Some(MIX_ONE));
    assert_eq!(grid_line_progress(0, 0, height), None);
    assert_eq!(grid_line_progress(374_999, 0, height), None);
    assert_eq!(grid_line_progress(375_000, 0, height), Some(0));
    assert_eq!(grid_line_progress(750_000, 0, height), Some(MIX_ONE));
    assert_eq!(grid_line_progress(187_500, height / 2, height), Some(0));
    assert_eq!(grid_line_progress(375_000, height / 2, height), Some(500_000));
}

#[test]
fn curve_shows_after_a_delay() {
    assert_eq!(path_progress(0), 0);
    assert_eq!(path_progress(250_000), 0);
    assert_eq!(path_progress(625_000), 500_000);
    assert_eq!(path_progress(MIX_ONE), MIX_ONE);
    assert_eq!(path_progress(u32::MAX), MIX_ONE);
}

#[test]
fn points_are_marked_as_the_curve_reaches_them() {
    let plot = Bounds { left: 50 * PX, top: 20 * PX, width: 420 * PX, height: 280 * PX };
    let scaled = chart(samples()).scaled_points(140_000, plot);
    assert_eq!(visible_points(&scaled, plot, 0), 1);
    assert_eq!(visible_points(&scaled, plot, 333_333), 1);
    assert_eq!(visible_points(&scaled, plot, 333_334), 2);
    assert_eq!(visible_points(&scaled, plot, 700_000), 3);
    assert_eq!(visible_points(&scaled, plot, MIX_ONE), 4);
    assert_eq!(visible_points(&vec![], plot, MIX_ONE), 0);
}

#[test]
fn prepaint_lays_the_chart_out() {
    let bounds = Bounds { left: 10 * PX, top: 20 * PX, width: 500 * PX, height: 280 * PX };
    let ready = chart(samples()).prepaint(bounds, &vec![12 * PX, 39 * PX], 140_000);
    let plot = Bounds { left: 50 * PX, top: 20 * PX, width: 420 * PX, height: 280 * PX };
    assert_eq!(ready.content_bounds, plot);
    assert_eq!(ready.points, chart(samples()).scaled_points(140_000, plot));
    assert_eq!(ready.path, steno::curve::curve(&ready.points));
    assert_eq!(ready.path.len(), 3);
    assert_eq!(ready.path[2].to, Point { x: 470 * PX, y: 132 * PX });

    let empty = chart(vec![]).prepaint(bounds, &vec![60 * PX], 0);
    assert_eq!(empty.content_bounds.left, 70 * PX);
    assert_eq!(empty.content_bounds.width, 380 * PX);
    assert!(empty.points.is_empty());
    assert!(empty.path.is_empty());
}

#[test]
fn targets_are_the_grid_lines_and_the_axis() {
    assert_eq!(
        chart(samples()).targets(256 * PX),
        ScaleTargets { num_grid_lines: 4_000, scale: 140_000, units_per_grid_line: 35_000 }
    );
    assert_eq!(
        chart(samples()).targets(20 * PX),
        ScaleTargets { num_grid_lines: 0, scale: 0, units_per_grid_line: 0 }
    );
    let mut unrounded = chart(samples());
    unrounded.scale_rounding = 0;
    assert_eq!(
        unrounded.targets(256 * PX),
        ScaleTargets { num_grid_lines: 4_000, scale: 0, units_per_grid_line: 0 }
    );
    assert_eq!(
        chart(vec![]).targets(256 * PX),
        ScaleTargets { num_grid_lines: 4_000, scale: 0, units_per_grid_line: 0 }
    );
}

#[test]
fn frame_eases_the_scale_and_places_the_grid_lines() {
    let chart = chart(samples());
    let first = chart.frame(None, 256 * PX, 0);
    assert!(!first.animating);
    assert_eq!(
        first.state,
        ScaleState { num_grid_lines: 4_000, scale: 140_000, last_frame: None }
    );
    assert_eq!(first.units_per_grid_line, 35_000);
    assert_eq!(first.grid_lines, grid_lines(4_000, 256 * PX, 35_000));

    // The plot grows: the scale aims at five lines and starts the clock.
    let grown = chart.frame(Some(first.state), 320 * PX, 1_000_000);
    assert!(grown.animating);
    assert_eq!(grown.state.num_grid_lines, 4_000);
    assert_eq!(grown.state.last_frame, Some(1_000_000));
    assert_eq!(grown.units_per_grid_line, 25_000);
    let next = chart.frame(Some(grown.state), 320 * PX, 1_020_000);
    assert!(next.animating);
    assert_eq!(next.state.num_grid_lines, 4_100);
    assert_eq!(next.state.scale, 138_500);
    assert_eq!(next.grid_lines, grid_lines(4_100, 320 * PX, 25_000));
    assert_eq!(next.grid_lines.len(), 6);
    let settled = chart.frame(Some(next.state), 320 * PX, 1_220_000);
    assert_eq!(settled.state.num_grid_lines, 5_000);
    assert_eq!(settled.state.scale, 125_000);
    let rest = chart.frame(Some(settled.state), 320 * PX, 1_240_000);
    assert!(!rest.animating);
    assert_eq!(rest.state, ScaleState { num_grid_lines: 5_000, scale: 125_000, last_frame: None });
}
