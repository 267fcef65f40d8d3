use drawing::subdivision::{chaikin_algo, Point};

#[test]
fn point_new_keeps_coordinates() {
    let p = Point::new(-7, 42);
    assert_eq!(p.x, -7);
    assert_eq!(p.y, 42);
}

#[test]
fn subdivide_identity_below_three_points() {
    let empty: Vec<Point> = Vec::new();
    assert_eq!(chaikin_algo(&empty), empty);

    let one = vec![Point::new(5, 6)];
    assert_eq!(chaikin_algo(&one), one);

    let two = vec![Point::new(0, 0), Point::new(100, 100)];
    assert_eq!(chaikin_algo(&two), two);
}

#[test]
fn subdivide_four_points_exact() {
    let input = vec![
        Point::new(0, 0),
        Point::new(4, 0),
        Point::new(4, 4),
        Point::new(0, 4),
    ];
    let out = chaikin_algo(&input);
    let expected = vec![
        Point::new(0, 0),
        Point::new(1, 0),
        Point::new(3, 0),
        Point::new(4, 1),
        Point::new(4, 3),
        Point::new(3, 4),
        Point::new(1, 4),
        Point::new(0, 4),
    ];
    assert_eq!(out, expected);
}

#[test]
fn subdivide_doubles_length() {
    let three = vec![Point::new(0, 0), Point::new(10, 0), Point::new(10, 10)];
    assert_eq!(chaikin_algo(&three).len(), 6);

    let five = vec![
        Point::new(0, 0),
        Point::new(8, 0),
        Point::new(8, 8),
        Point::new(0, 8),
        Point::new(-8, 0),
    ];
    assert_eq!(chaikin_algo(&five).len(), 10);
}

#[test]
fn subdivide_preserves_endpoints() {
    let input = vec![
        Point::new(-100, 7),
        Point::new(35, 90),
        Point::new(240, -18),
        Point::new(301, 44),
    ];
    let out = chaikin_algo(&input);
    assert_eq!(out[0], input[0]);
    assert_eq!(out[out.len() - 1], input[input.len() - 1]);
}

#[test]
fn subdivide_repeated_stays_in_bounding_box() {
    let mut pts = vec![
        Point::new(0, 0),
        Point::new(4000, 0),
        Point::new(4000, 4000),
        Point::new(0, 4000),
    ];
    for _ in 0..7 {
        pts = chaikin_algo(&pts);
        for p in &pts {
            assert!(0 <= p.x && p.x <= 4000);
            assert!(0 <= p.y && p.y <= 4000);
        }
    }
    assert_eq!(pts.len(), 512);
}
