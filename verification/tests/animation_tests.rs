use drawing::animation::Animation;
use drawing::subdivision::Point;

fn square() -> Vec<Point> {
    vec![
        Point::new(0, 0),
        Point::new(400, 0),
        Point::new(400, 400),
        Point::new(0, 400),
    ]
}

#[test]
fn animation_starts_idle() {
    let s = Animation::new();
    assert!(!s.animating);
    assert_eq!(s.steps, 0);
    assert!(s.original_points.is_empty());
    assert!(s.smooth_points.is_empty());
}

#[test]
fn animation_captures_points_and_starts() {
    let mut s = Animation::new();
    for p in square() {
        s.add_point(p);
    }
    assert_eq!(s.original_points.len(), 4);
    assert!(!s.animating);
    s.start();
    assert!(s.animating);
    assert_eq!(s.smooth_points, s.original_points);
}

#[test]
fn animation_start_needs_two_points() {
    let mut s = Animation::new();
    s.add_point(Point::new(1, 1));
    s.start();
    assert!(!s.animating);
    s.add_point(Point::new(2, 2));
    s.start();
    assert!(s.animating);
}

#[test]
fn animation_tick_refines_polyline() {
    let mut s = Animation::new();
    for p in square() {
        s.add_point(p);
    }
    s.start();
    s.tick();
    assert_eq!(s.steps, 1);
    assert_eq!(s.smooth_points.len(), 8);
    assert_eq!(s.smooth_points[0], Point::new(0, 0));
    assert_eq!(s.smooth_points[7], Point::new(0, 400));
    assert_eq!(s.original_points, square());
}

#[test]
fn animation_tick_idle_is_noop() {
    let mut s = Animation::new();
    s.add_point(Point::new(0, 0));
    s.add_point(Point::new(9, 9));
    s.tick();
    assert!(!s.animating);
    assert_eq!(s.steps, 0);
    assert!(s.smooth_points.is_empty());
}

#[test]
fn animation_clicks_ignored_while_running() {
    let mut s = Animation::new();
    for p in square() {
        s.add_point(p);
    }
    s.start();
    s.add_point(Point::new(777, 777));
    assert_eq!(s.original_points.len(), 4);
}

#[test]
fn animation_cycle_snaps_back_after_cap() {
    let mut s = Animation::new();
    for p in square() {
        s.add_point(p);
    }
    s.start();
    for k in 1..=7u32 {
        s.tick();
        assert_eq!(s.steps, k);
        assert_eq!(s.smooth_points.len(), 4usize << k);
    }
    s.tick();
    assert_eq!(s.steps, 0);
    assert!(s.animating);
    assert_eq!(s.smooth_points, square());
    s.tick();
    assert_eq!(s.steps, 1);
    assert_eq!(s.smooth_points.len(), 8);
}

#[test]
fn animation_reset_returns_to_idle() {
    let mut s = Animation::new();
    for p in square() {
        s.add_point(p);
    }
    s.start();
    s.tick();
    s.reset();
    assert!(!s.animating);
    assert_eq!(s.steps, 0);
    assert!(s.original_points.is_empty());
    assert!(s.smooth_points.is_empty());
}
