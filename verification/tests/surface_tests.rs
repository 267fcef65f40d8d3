use drawing::geometry::{Circle, Cube, Line, Pentagon, Point, Rectangle, Triangle};
use drawing::drawable::Drawable;
use drawing::surface::{Canvas, Displayable};
use raster::Color;

fn count_set(canvas: &Canvas, w: i32, h: i32) -> usize {
    let mut n = 0;
    for y in 0..h {
        for x in 0..w {
            if canvas.get_pixel(x, y).is_some() {
                n += 1;
            }
        }
    }
    n
}

#[test]
fn canvas_starts_blank() {
    let canvas = Canvas::new(10, 10);
    assert_eq!(canvas.width(), 10);
    assert_eq!(canvas.height(), 10);
    assert_eq!(count_set(&canvas, 10, 10), 0);
}

#[test]
fn display_writes_in_frame_pixel() {
    let mut canvas = Canvas::new(10, 10);
    canvas.display(2, 3, Color::rgb(200, 150, 130));
    let c = canvas.get_pixel(2, 3).expect("pixel must be set");
    assert_eq!((c.r, c.g, c.b, c.a), (200, 150, 130, 255));
    assert_eq!(count_set(&canvas, 10, 10), 1);
}

#[test]
fn display_drops_out_of_frame_writes() {
    let mut canvas = Canvas::new(10, 10);
    canvas.display(-1, 5, Color::rgb(200, 150, 130));
    canvas.display(10, 0, Color::rgb(200, 150, 130));
    canvas.display(0, 10, Color::rgb(200, 150, 130));
    canvas.display(-3, -3, Color::rgb(200, 150, 130));
    assert_eq!(count_set(&canvas, 10, 10), 0);
}

#[test]
fn display_overwrites_last_color() {
    let mut canvas = Canvas::new(4, 4);
    canvas.display(1, 1, Color::rgb(200, 150, 130));
    canvas.display(1, 1, Color::rgb(140, 141, 142));
    let c = canvas.get_pixel(1, 1).expect("pixel must be set");
    assert_eq!((c.r, c.g, c.b), (140, 141, 142));
}

#[test]
fn offscreen_shapes_leave_canvas_blank() {
    let mut canvas = Canvas::new(8, 8);
    Point::new(50, 50).draw(&mut canvas);
    Line::new(Point::new(100, 9), Point::new(300, 70)).draw(&mut canvas);
    Rectangle::new(&Point::new(50, 60), &Point::new(70, 80)).draw(&mut canvas);
    Triangle::new(&Point::new(100, 100), &Point::new(120, 140), &Point::new(90, 130))
        .draw(&mut canvas);
    Circle { center: Point::new(1000, 1000), radius: 5 }.draw(&mut canvas);
    Pentagon::new(
        &Point::new(400, 200),
        &Point::new(590, 338),
        &Point::new(518, 562),
        &Point::new(282, 562),
        &Point::new(210, 338),
    )
    .draw(&mut canvas);
    Cube::new(
        &Point::new(500, 500),
        &Point::new(700, 500),
        &Point::new(700, 700),
        &Point::new(500, 700),
        &Point::new(550, 450),
        &Point::new(750, 450),
        &Point::new(750, 650),
        &Point::new(550, 650),
    )
    .draw(&mut canvas);
    assert_eq!(count_set(&canvas, 8, 8), 0);
}

#[test]
fn point_draw_sets_its_pixel() {
    let mut canvas = Canvas::new(10, 10);
    Point::new(4, 5).draw(&mut canvas);
    let c = canvas.get_pixel(4, 5).expect("pixel must be set");
    assert!(c.r >= 128 && c.g >= 128 && c.b >= 128);
    assert_eq!(count_set(&canvas, 10, 10), 1);
}

#[test]
fn line_draw_paints_one_color() {
    let mut canvas = Canvas::new(20, 20);
    Line::new(Point::new(0, 0), Point::new(5, 5)).draw(&mut canvas);
    let first = canvas.get_pixel(0, 0).expect("start pixel set");
    let last = canvas.get_pixel(5, 5).expect("end pixel set");
    assert_eq!((first.r, first.g, first.b), (last.r, last.g, last.b));
    let mut set = 0;
    for y in 0..20 {
        for x in 0..20 {
            if let Some(c) = canvas.get_pixel(x, y) {
                set += 1;
                assert_eq!((c.r, c.g, c.b), (first.r, first.g, first.b));
            }
        }
    }
    assert_eq!(set, 6);
}

#[test]
fn rectangle_draw_paints_border_only() {
    let mut canvas = Canvas::new(10, 10);
    Rectangle::new(&Point::new(2, 2), &Point::new(5, 6)).draw(&mut canvas);
    for x in 2..=5 {
        assert!(canvas.get_pixel(x, 2).is_some());
        assert!(canvas.get_pixel(x, 6).is_some());
    }
    for y in 2..=6 {
        assert!(canvas.get_pixel(2, y).is_some());
        assert!(canvas.get_pixel(5, y).is_some());
    }
    assert!(canvas.get_pixel(3, 3).is_none());
    assert!(canvas.get_pixel(4, 5).is_none());
    assert!(canvas.get_pixel(1, 1).is_none());
}

#[test]
fn circle_draw_paints_circumference() {
    let mut canvas = Canvas::new(41, 41);
    Circle { center: Point::new(20, 20), radius: 10 }.draw(&mut canvas);
    let east = canvas.get_pixel(30, 20).expect("east pole set");
    assert!(canvas.get_pixel(20, 20).is_none());
    let mut set = 0;
    for y in 0..41 {
        for x in 0..41 {
            if let Some(c) = canvas.get_pixel(x, y) {
                set += 1;
                assert_eq!((c.r, c.g, c.b), (east.r, east.g, east.b));
            }
        }
    }
    assert!(set > 20);
}

#[test]
fn triangle_draw_paints_vertices() {
    let mut canvas = Canvas::new(30, 30);
    Triangle::new(&Point::new(2, 2), &Point::new(20, 4), &Point::new(10, 25)).draw(
        &mut canvas,
    );
    assert!(canvas.get_pixel(2, 2).is_some());
    assert!(canvas.get_pixel(20, 4).is_some());
    assert!(canvas.get_pixel(10, 25).is_some());
}

#[test]
fn pentagon_draw_paints_vertices() {
    let mut canvas = Canvas::new(100, 100);
    Pentagon::new(
        &Point::new(40, 20),
        &Point::new(59, 33),
        &Point::new(51, 56),
        &Point::new(28, 56),
        &Point::new(21, 33),
    )
    .draw(&mut canvas);
    for &(x, y) in &[(40, 20), (59, 33), (51, 56), (28, 56), (21, 33)] {
        assert!(canvas.get_pixel(x, y).is_some());
    }
}

#[test]
fn cube_draw_paints_both_quads() {
    let mut canvas = Canvas::new(100, 100);
    Cube::new(
        &Point::new(20, 20),
        &Point::new(60, 20),
        &Point::new(60, 60),
        &Point::new(20, 60),
        &Point::new(30, 10),
        &Point::new(70, 10),
        &Point::new(70, 50),
        &Point::new(30, 50),
    )
    .draw(&mut canvas);
    for &(x, y) in &[
        (20, 20),
        (60, 20),
        (60, 60),
        (20, 60),
        (30, 10),
        (70, 10),
        (70, 50),
        (30, 50),
    ] {
        assert!(canvas.get_pixel(x, y).is_some());
    }
    assert!(canvas.get_pixel(40, 20).is_some());
    assert!(canvas.get_pixel(25, 15).is_some());
}
