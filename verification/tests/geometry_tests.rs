use drawing::geometry::{Circle, Line, Point, Rectangle};
use drawing::color::{fold_channel, random_channel, random_color};

#[test]
fn rectangle_normalizes_corners() {
    let rect = Rectangle::new(&Point::new(150, 300), &Point::new(50, 60));
    assert_eq!(rect.top_left.x, 50);
    assert_eq!(rect.top_left.y, 60);
    assert_eq!(rect.bottom_right.x, 150);
    assert_eq!(rect.bottom_right.y, 300);
}

#[test]
fn rectangle_keeps_normalized_corners() {
    let rect = Rectangle::new(&Point::new(10, 20), &Point::new(30, 40));
    assert_eq!(rect.top_left.x, 10);
    assert_eq!(rect.top_left.y, 20);
    assert_eq!(rect.bottom_right.x, 30);
    assert_eq!(rect.bottom_right.y, 40);
}

#[test]
fn rectangle_mixed_corners() {
    let rect = Rectangle::new(&Point::new(10, 300), &Point::new(50, 60));
    assert_eq!(rect.top_left.x, 10);
    assert_eq!(rect.top_left.y, 60);
    assert_eq!(rect.bottom_right.x, 50);
    assert_eq!(rect.bottom_right.y, 300);
}

#[test]
fn point_and_line_constructors_keep_fields() {
    let p = Point::new(-3, 9);
    assert_eq!(p.x, -3);
    assert_eq!(p.y, 9);
    let l = Line::new(Point::new(1, 2), Point::new(3, 4));
    assert_eq!(l.point1.x, 1);
    assert_eq!(l.point1.y, 2);
    assert_eq!(l.point2.x, 3);
    assert_eq!(l.point2.y, 4);
}

#[test]
fn random_point_stays_in_frame() {
    for _ in 0..50 {
        let p = Point::random(100, 50);
        assert!(0 <= p.x && p.x < 100);
        assert!(0 <= p.y && p.y < 50);
    }
}

#[test]
fn random_line_stays_in_frame() {
    for _ in 0..20 {
        let l = Line::random(64, 32);
        assert!(0 <= l.point1.x && l.point1.x < 64);
        assert!(0 <= l.point1.y && l.point1.y < 32);
        assert!(0 <= l.point2.x && l.point2.x < 64);
        assert!(0 <= l.point2.y && l.point2.y < 32);
    }
}

#[test]
fn random_circle_stays_in_frame() {
    for _ in 0..20 {
        let c = Circle::random(100, 50);
        assert!(0 <= c.center.x && c.center.x < 100);
        assert!(0 <= c.center.y && c.center.y < 50);
        assert!(c.radius < 25);
    }
}

#[test]
fn fold_channel_exact_values() {
    assert_eq!(fold_channel(0), 128);
    assert_eq!(fold_channel(126), 254);
    assert_eq!(fold_channel(127), 128);
    assert_eq!(fold_channel(255), 129);
}

#[test]
fn random_channel_is_bright() {
    for _ in 0..200 {
        let v = random_channel();
        assert!((128..=254).contains(&v));
    }
}

#[test]
fn random_color_is_bright_opaque() {
    for _ in 0..50 {
        let c = random_color();
        assert!(c.r >= 128);
        assert!(c.g >= 128);
        assert!(c.b >= 128);
        assert_eq!(c.a, 255);
    }
}
