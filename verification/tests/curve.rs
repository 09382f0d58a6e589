use steno::animation::Point;
use steno::curve::{curve, segment, tangent, tangents, CubicSegment, Vector};

fn p(x: i32, y: i32) -> Point {
    Point { x, y }
}

#[test]
fn tangents_follow_the_neighbours() {
    let points = vec![p(0, 0), p(30, 30), p(60, 90), p(90, 60), p(120, 60)];
    assert_eq!(
        tangents(&points),
        vec![
            Vector { x: 30, y: 30 },
            Vector { x: 60, y: 90 },
            Vector { x: 1, y: 0 },
            Vector { x: 60, y: -30 },
            Vector { x: 30, y: 0 },
        ]
    );
    assert_eq!(tangent(&points, 1), Vector { x: 60, y: 90 });
}

#[test]
fn tangents_of_few_points() {
    assert!(tangents(&vec![]).is_empty());
    assert_eq!(tangents(&vec![p(5, 5)]), vec![Vector { x: 0, y: 0 }]);
    assert_eq!(
        tangents(&vec![p(0, 0), p(30, -60)]),
        vec![Vector { x: 30, y: -60 }, Vector { x: 30, y: -60 }]
    );
}

#[test]
fn straight_line_has_control_points_at_its_thirds() {
    let points = vec![p(0, 0), p(30, 60), p(60, 120)];
    assert_eq!(
        curve(&points),
        vec![
            CubicSegment { control_a: p(10, 20), control_b: p(20, 40), to: p(30, 60) },
            CubicSegment { control_a: p(40, 80), control_b: p(50, 100), to: p(60, 120) },
        ]
    );
}

#[test]
fn curve_is_level_at_a_peak() {
    let points = vec![p(0, 0), p(30, 90), p(60, 0)];
    let path = curve(&points);
    assert_eq!(
        path,
        vec![
            CubicSegment { control_a: p(10, 30), control_b: p(20, 90), to: p(30, 90) },
            CubicSegment { control_a: p(40, 90), control_b: p(50, 30), to: p(60, 0) },
        ]
    );
    assert_eq!(segment(&points, 1), path[1]);
}

#[test]
fn curve_projects_the_segment_onto_the_tangent() {
    let points = vec![p(0, 0), p(30, 0), p(60, 60), p(90, 60)];
    // At (30, 0) the tangent runs along (60, 60). The segment from (0, 0)
    // projects onto it as (15, 15), the segment to (60, 60) as (45, 45).
    // At (60, 60) the curve turns, so the tangent is level there.
    let path = curve(&points);
    assert_eq!(path[0], CubicSegment { control_a: p(10, 0), control_b: p(25, -5), to: p(30, 0) });
    assert_eq!(path[1], CubicSegment { control_a: p(45, 15), control_b: p(50, 60), to: p(60, 60) });
    assert_eq!(path[2], CubicSegment { control_a: p(70, 60), control_b: p(80, 60), to: p(90, 60) });
}

#[test]
fn few_points_have_no_curve() {
    assert!(curve(&vec![]).is_empty());
    assert!(curve(&vec![p(5, 5)]).is_empty());
    assert_eq!(curve(&vec![p(0, 0), p(30, 30)]).len(), 1);
}

#[test]
fn points_on_one_spot_have_control_points_there() {
    let points = vec![p(7, 7), p(7, 7)];
    assert_eq!(
        curve(&points),
        vec![CubicSegment { control_a: p(7, 7), control_b: p(7, 7), to: p(7, 7) }]
    );
}

#[test]
fn curve_over_the_whole_plane_stays_on_it() {
    let points = vec![p(i32::MIN, i32::MIN), p(i32::MAX, i32::MAX), p(i32::MIN, i32::MAX)];
    let path = curve(&points);
    assert_eq!(path.len(), 2);
    assert_eq!(path[0].to, p(i32::MAX, i32::MAX));
    assert_eq!(path[1].to, p(i32::MIN, i32::MAX));
}
