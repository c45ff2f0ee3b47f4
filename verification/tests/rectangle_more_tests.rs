use klapit::line::Line;
use klapit::rectangle::Rectangle;
use klapit::vector::vec2;

fn rect(x: i64, y: i64, width: i64, height: i64, rotation: i64) -> Rectangle {
    Rectangle { position: vec2(x, y), width, height, rotation }
}

#[test]
fn corners_without_rotation() {
    let r = rect(1_000_000, 2_000_000, 4_000_000, 2_000_000, 0);
    assert_eq!(r.top_left(), vec2(-1_000_000, 3_000_000));
    assert_eq!(r.top_right(), vec2(3_000_000, 3_000_000));
    assert_eq!(r.bottom_right(), vec2(3_000_000, 1_000_000));
    assert_eq!(r.bottom_left(), vec2(-1_000_000, 1_000_000));
}

#[test]
fn corners_after_a_quarter_turn() {
    // the half extents (2, 1) turn into (-1, 2)
    let r = rect(1_000_000, 2_000_000, 4_000_000, 2_000_000, 90_000_000);
    assert_eq!(r.top_left(), vec2(0, 0));
    assert_eq!(r.top_right(), vec2(0, 4_000_000));
    assert_eq!(r.bottom_right(), vec2(2_000_000, 4_000_000));
    assert_eq!(r.bottom_left(), vec2(2_000_000, 0));
}

#[test]
fn corners_at_thirty_degrees() {
    // half extents 2.5 and 5, cos 30 = 0.8660254, sin 30 = 0.5
    let r = rect(0, 0, 5_000_000, 10_000_000, 30_000_000);
    assert_eq!(r.top_left(), vec2(-4_665_064, 3_080_127));
    assert_eq!(r.top_right(), vec2(-334_936, 5_580_127));
    assert_eq!(r.bottom_right(), vec2(4_665_064, -3_080_127));
    assert_eq!(r.bottom_left(), vec2(334_936, -5_580_127));
}

#[test]
fn corners_of_odd_extents_round_away_from_the_centre() {
    let r = rect(0, 0, 1, 3, 0);
    assert_eq!(r.top_left(), vec2(-1, 2));
    assert_eq!(r.bottom_right(), vec2(1, -2));
}

#[test]
fn the_edge_loop_runs_top_right_bottom_left() {
    let r = rect(0, 0, 4, 2, 0);
    let poly = r.to_poly();
    assert_eq!(poly.vertices.len(), 4);
    assert_eq!(poly.vertices[0], Line { start: vec2(-2, 1), end: vec2(2, 1) });
    assert_eq!(poly.vertices[1], Line { start: vec2(2, 1), end: vec2(2, -1) });
    assert_eq!(poly.vertices[2], Line { start: vec2(2, -1), end: vec2(-2, -1) });
    assert_eq!(poly.vertices[3], Line { start: vec2(-2, -1), end: vec2(-2, 1) });
    for i in 0..4 {
        assert_eq!(poly.vertices[i].end, poly.vertices[(i + 1) % 4].start);
    }
}

#[test]
fn rectangles_apart_do_not_collide() {
    let a = rect(0, 0, 2_000_000, 2_000_000, 0);
    let b = rect(5_000_000, 500_000, 2_000_000, 2_000_000, 0);
    assert!(!a.collide(&b));
    assert!(!b.collide(&a));
    let turned = rect(5_000_000, 500_000, 2_000_000, 2_000_000, 45_000_000);
    assert!(!a.collide(&turned));
    assert!(!turned.collide(&a));
}

#[test]
fn a_turned_rectangle_reaches_farther() {
    let a = rect(0, 0, 2_000_000, 2_000_000, 0);
    // a square of side 2 at distance 2.2: clear when upright, not when its
    // corner points at the other
    let upright = rect(2_200_000, 300_000, 2_000_000, 2_000_000, 0);
    let turned = rect(2_200_000, 300_000, 2_000_000, 2_000_000, 45_000_000);
    assert!(!a.collide(&upright));
    assert!(a.collide(&turned));
    assert!(turned.collide(&a));
}

#[test]
fn collide_is_symmetric_for_rectangles_without_rotation() {
    let rects = vec![
        rect(0, 0, 10_000_000, 10_000_000, 0),
        rect(5_000_000, 0, 10_000_000, 10_000_000, 0),
        rect(0, 7_000_000, 2_000_000, 6_000_000, 0),
        rect(-20_000_000, 3, 1_000_000, 1_000_000, 0),
        rect(5_000_000, 5_000_000, 1, 1, 0),
        rect(11_000_000, 0, 2_000_001, 30_000_000, 0),
        rect(0, 5_000_000, 30_000_000, 0, 0),
        rect(-5_000_000, 0, 0, 4_000_000, 0),
    ];
    for a in &rects {
        for b in &rects {
            let left_inside = -half(b.width) < a.position.x - b.position.x - half(a.width)
                && a.position.x - b.position.x + half(a.width) < half(b.width);
            let low_inside = -half(b.height) < a.position.y - b.position.y - half(a.height)
                && a.position.y - b.position.y + half(a.height) < half(b.height);
            let a_in_b = left_inside && low_inside;
            let right_inside = -half(a.width) < b.position.x - a.position.x - half(b.width)
                && b.position.x - a.position.x + half(b.width) < half(a.width);
            let high_inside = -half(a.height) < b.position.y - a.position.y - half(b.height)
                && b.position.y - a.position.y + half(b.height) < half(a.height);
            let b_in_a = right_inside && high_inside;
            if !a_in_b && !b_in_a {
                assert_eq!(a.collide(b), b.collide(a));
            }
        }
    }
}

/// Half of an extent, the tie rounded up.
fn half(extent: i64) -> i64 {
    (extent + 1) / 2
}

#[test]
fn of_nested_rectangles_only_the_outer_collides() {
    let outer = rect(0, 0, 10_000_000, 10_000_000, 0);
    let inner = rect(1_000_000, -1_000_000, 1_000_000, 1_000_000, 0);
    assert!(outer.collide(&inner));
    assert!(!inner.collide(&outer));
    let point = rect(0, 0, 0, 0, 0);
    assert!(outer.collide(&point));
    assert!(!point.collide(&outer));
}

#[test]
fn rectangles_that_share_a_side_line_collide() {
    // the upper sides lie on one line, far from each other
    let a = rect(0, 0, 2_000_000, 2_000_000, 0);
    let b = rect(50_000_000, 0, 2_000_000, 2_000_000, 0);
    assert!(a.collide(&b));
    assert!(b.collide(&a));
}

#[test]
fn pivot_about_the_centre_keeps_the_position() {
    let r = rect(1_234_567, -7_654_321, 180_000, 800_000, 12_000_000);
    let angles = vec![0, 1, 45_000_000, 90_000_000, -33_333_333, 360_000_000, i64::MAX, i64::MIN];
    for angle in &angles {
        let turned = r.pivot(r.position, *angle);
        assert_eq!(turned.position, r.position);
        assert_eq!(turned.width, r.width);
        assert_eq!(turned.height, r.height);
        assert_eq!(turned.rotation, *angle);
    }
}

#[test]
fn pivot_by_quarter_turns() {
    let r = rect(3_000_000, 1_000_000, 1_000_000, 1_000_000, 0);
    let pivot = vec2(1_000_000, 1_000_000);
    assert_eq!(r.pivot(pivot, 90_000_000).position, vec2(1_000_000, 3_000_000));
    assert_eq!(r.pivot(pivot, 180_000_000).position, vec2(-1_000_000, 1_000_000));
    assert_eq!(r.pivot(pivot, -90_000_000).position, vec2(1_000_000, -1_000_000));
    assert_eq!(r.pivot(pivot, 360_000_000).position, r.position);
    assert_eq!(r.pivot(pivot, 0).position, r.position);
}

#[test]
fn pivot_there_and_back_returns_within_a_millionth() {
    let rects = vec![
        rect(-1_900_000, -450_000, 180_000, 900_000, 0),
        rect(3_535_534, 1_464_466, 5_000_000, 10_000_000, 45_000_000),
        rect(999_999_999_999, -999_999_999_999, 1, 1, 7),
        rect(123_456_789, 987_654_321, 0, 0, 0),
    ];
    let pivots = vec![vec2(-1_900_000, 0), vec2(0, 5_000_000), vec2(999_999_000_000, -999_999_000_000)];
    let mut angle: i64 = -400_000_000;
    while angle < 400_000_000 {
        for r in &rects {
            for pivot in &pivots {
                let there = r.pivot(*pivot, angle);
                let inside = there.position.x.abs() < 1_000_000_000_000
                    && there.position.y.abs() < 1_000_000_000_000;
                if inside {
                    let back = there.pivot(*pivot, -angle);
                    assert!((back.position.x - r.position.x).abs() <= 1);
                    assert!((back.position.y - r.position.y).abs() <= 1);
                    assert_eq!(back.width, r.width);
                    assert_eq!(back.height, r.height);
                }
            }
        }
        angle += 12_345_678;
    }
}

#[test]
fn pivot_saturates_the_position() {
    let limit = 1_000_000_000_000;
    let r = rect(limit, 0, 1, 1, 0);
    let turned = r.pivot(vec2(-limit, 0), 180_000_000);
    // the mirror image lies at three times the limit
    assert_eq!(turned.position, vec2(-limit, 0));
    assert!(turned.is_wf());
}

#[test]
fn a_rectangle_contains_the_points_inside() {
    let r = rect(0, 0, 4_000_000, 2_000_000, 0);
    assert!(r.contains_point(vec2(0, 0)));
    assert!(r.contains_point(vec2(1_999_999, 999_999)));
    assert!(r.contains_point(vec2(-2_000_000, 0)));
    assert!(!r.contains_point(vec2(2_000_000, 0)));
    assert!(!r.contains_point(vec2(0, 1_000_000)));
    assert!(!r.contains_point(vec2(0, -1_000_000)));
    assert!(!r.contains_point(vec2(3_000_000, 0)));
    let turned = rect(0, 0, 4_000_000, 2_000_000, 90_000_000);
    assert!(turned.contains_point(vec2(0, 1_500_000)));
    assert!(!turned.contains_point(vec2(1_500_000, 0)));
}

#[test]
fn well_formed_rectangles_are_told_apart() {
    assert!(rect(0, 0, 0, 0, i64::MAX).is_wf());
    assert!(rect(1_000_000_000_000, -1_000_000_000_000, 1_000_000_000_000, 5, 0).is_wf());
    assert!(!rect(0, 0, -1, 0, 0).is_wf());
    assert!(!rect(0, 0, 0, -1, 0).is_wf());
    assert!(!rect(1_000_000_000_001, 0, 1, 1, 0).is_wf());
    assert!(!rect(0, 0, 1_000_000_000_001, 1, 0).is_wf());
}
