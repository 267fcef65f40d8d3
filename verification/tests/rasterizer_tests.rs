use drawing::geometry::Point;
use drawing::rasterizer::{trace_line, trigonometric_circle};

#[test]
fn line_horizontal_five_points() {
    let pts = trace_line(0, 0, 4, 0);
    let expected = vec![
        Point::new(0, 0),
        Point::new(1, 0),
        Point::new(2, 0),
        Point::new(3, 0),
        Point::new(4, 0),
    ];
    assert_eq!(pts, expected);
}

#[test]
fn line_single_point() {
    let pts = trace_line(0, 0, 0, 0);
    assert_eq!(pts, vec![Point::new(0, 0)]);
}

#[test]
fn line_diagonal() {
    let pts = trace_line(0, 0, 3, 3);
    let expected = vec![
        Point::new(0, 0),
        Point::new(1, 1),
        Point::new(2, 2),
        Point::new(3, 3),
    ];
    assert_eq!(pts, expected);
}

#[test]
fn line_steep_dominant_axis() {
    let pts = trace_line(0, 0, 1, 4);
    let expected = vec![
        Point::new(0, 0),
        Point::new(0, 1),
        Point::new(1, 2),
        Point::new(1, 3),
        Point::new(1, 4),
    ];
    assert_eq!(pts, expected);
}

#[test]
fn line_symmetric_content() {
    let fwd = trace_line(1, 2, 7, 5);
    let mut bwd = trace_line(7, 5, 1, 2);
    bwd.reverse();
    assert_eq!(fwd, bwd);

    let fwd2 = trace_line(-3, 4, 10, -8);
    let mut bwd2 = trace_line(10, -8, -3, 4);
    bwd2.reverse();
    assert_eq!(fwd2, bwd2);
}

#[test]
fn line_endpoints_always_emitted() {
    let pts = trace_line(3, -2, -5, 9);
    assert_eq!(pts.len(), 12);
    assert_eq!(pts[0], Point::new(3, -2));
    assert_eq!(pts[pts.len() - 1], Point::new(-5, 9));
}

#[test]
fn line_no_gap_on_dominant_axis() {
    let pts = trace_line(0, 0, 10, 3);
    assert_eq!(pts.len(), 11);
    for (i, p) in pts.iter().enumerate() {
        assert_eq!(p.x, i as i32);
    }
}

#[test]
fn circle_radius_zero_single_center_point() {
    let pts = trigonometric_circle(5, 7, 0);
    assert_eq!(pts, vec![(5, 7)]);
}

#[test]
fn circle_points_stay_near_radius() {
    for &r in &[1u32, 3, 10, 50, 200, 1000] {
        let cx = 100i32;
        let cy = -40i32;
        let pts = trigonometric_circle(cx, cy, r);
        assert!(!pts.is_empty());
        assert_eq!(pts.len(), 64 * r as usize);
        for &(x, y) in &pts {
            let dx = (x - cx) as f64;
            let dy = (y - cy) as f64;
            let dist = (dx * dx + dy * dy).sqrt();
            assert!(
                (dist - r as f64).abs() <= 1.0,
                "point ({x},{y}) at distance {dist} from center, radius {r}"
            );
        }
    }
}

#[test]
fn circle_squared_distance_in_ring_band() {
    for &r in &[2i64, 7, 30, 1000] {
        let pts = trigonometric_circle(0, 0, r as u32);
        for &(x, y) in &pts {
            let d2 = (x as i64) * (x as i64) + (y as i64) * (y as i64);
            assert!((r - 1) * (r - 1) <= d2 && d2 <= (r + 1) * (r + 1));
        }
    }
}

#[test]
fn circle_starts_east_of_center() {
    let pts = trigonometric_circle(10, 20, 6);
    assert_eq!(pts[0], (16, 20));
}

#[test]
fn circle_larger_radius_more_points() {
    let small = trigonometric_circle(0, 0, 10);
    let large = trigonometric_circle(0, 0, 20);
    assert!(large.len() > small.len());
}
