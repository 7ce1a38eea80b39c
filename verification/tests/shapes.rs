use geometrical_shapes::Canvas;
use geometrical_shapes::Circle;
use geometrical_shapes::Color;
use geometrical_shapes::Cube;
use geometrical_shapes::Displayable;
use geometrical_shapes::Drawable;
use geometrical_shapes::Line;
use geometrical_shapes::Pentagon;
use geometrical_shapes::Point;
use geometrical_shapes::Rectangle;
use geometrical_shapes::ShapeError;
use geometrical_shapes::Triangle;
use geometrical_shapes::rng::random_color;

fn locs(pts: &[Point]) -> Vec<(i32, i32)> {
    pts.iter().map(|p| (p.x, p.y)).collect()
}

#[test]
fn point_random_within_bounds() {
    for _ in 0..200 {
        let p = Point::random(7, 13).unwrap();
        assert!(0 <= p.x && p.x < 7);
        assert!(0 <= p.y && p.y < 13);
    }
    let p = Point::random(1, 1).unwrap();
    assert_eq!((p.x, p.y), (0, 0));
}

#[test]
fn point_random_rejects_empty_range() {
    assert_eq!(Point::random(0, 5).unwrap_err(), ShapeError::InvalidInput);
    assert_eq!(Point::random(5, 0).unwrap_err(), ShapeError::InvalidInput);
    assert_eq!(Point::random(-3, 5).unwrap_err(), ShapeError::InvalidInput);
}

#[test]
fn line_random_within_bounds() {
    for _ in 0..50 {
        let l = Line::random(9, 4).unwrap();
        assert!(0 <= l.start.x && l.start.x < 9);
        assert!(0 <= l.start.y && l.start.y < 4);
        assert!(0 <= l.end.x && l.end.x < 9);
        assert!(0 <= l.end.y && l.end.y < 4);
    }
    assert!(Line::random(0, 0).is_err());
}

#[test]
fn horizontal_line_visits_exact_pixels_once() {
    let l = Line::new(&Point::new(0, 0), &Point::new(5, 0));
    let pts = locs(&l.points());
    assert_eq!(pts, vec![(0, 0), (1, 0), (2, 0), (3, 0), (4, 0), (5, 0)]);
}

#[test]
fn degenerate_line_visits_one_pixel() {
    let l = Line::new(&Point::new(7, -3), &Point::new(7, -3));
    let pts = locs(&l.points());
    assert_eq!(pts, vec![(7, -3)]);
}

#[test]
fn diagonal_line_endpoints_included() {
    let l = Line::new(&Point::new(2, 3), &Point::new(-4, 11));
    let pts = locs(&l.points());
    assert_eq!(pts[0], (2, 3));
    assert_eq!(*pts.last().unwrap(), (-4, 11));
}

#[test]
fn circle_pixels_symmetric_under_reflections() {
    let c = Circle::new(&Point::new(0, 0), 5);
    let pts = locs(&c.points());
    assert!(!pts.is_empty());
    for &(x, y) in &pts {
        for q in [
            (x, y), (y, x), (-y, x), (-x, y), (-x, -y), (-y, -x), (y, -x), (x, -y),
        ] {
            assert!(pts.contains(&q), "missing reflection {:?} of {:?}", q, (x, y));
        }
    }
}

#[test]
fn circle_radius_zero_plots_center() {
    let c = Circle::new(&Point::new(4, 9), 0);
    let pts = locs(&c.points());
    assert!(!pts.is_empty());
    for &q in &pts {
        assert_eq!(q, (4, 9));
    }
}

#[test]
fn circle_random_within_bounds() {
    for _ in 0..50 {
        let c = Circle::random(1000, 1000).unwrap();
        assert!(0 <= c.center.x && c.center.x < 1000);
        assert!(0 <= c.center.y && c.center.y < 1000);
        assert!(5 <= c.radius && c.radius < 100);
    }
    assert!(Circle::random(0, 10).is_err());
}

#[test]
fn pentagon_vertices_fixed_shape() {
    let p = Pentagon::new(&Point::new(300, 300), 100);
    let v = locs(&p.vertices());
    assert_eq!(v, vec![(400, 300), (330, 395), (220, 358), (220, 242), (330, 205)]);
}

#[test]
fn pentagon_vertices_near_circle() {
    for &r in &[2i64, 5, 42, 100, 1000, 99999] {
        let p = Pentagon::new(&Point::new(0, 0), r as i32);
        for v in p.vertices() {
            let d2 = (v.x as i64) * (v.x as i64) + (v.y as i64) * (v.y as i64);
            assert!(d2 <= r * r, "radius {} vertex {:?}", r, (v.x, v.y));
            assert!((r - 2) * (r - 2) <= d2, "radius {} vertex {:?}", r, (v.x, v.y));
        }
    }
}

#[test]
fn pentagon_random_within_bounds() {
    for _ in 0..50 {
        let p = Pentagon::random(1000, 1000).unwrap();
        assert!(0 <= p.center.x && p.center.x < 1000);
        assert!(0 <= p.center.y && p.center.y < 1000);
        assert!(5 <= p.radius && p.radius < 100);
    }
    assert!(Pentagon::random(10, -1).is_err());
}

#[test]
fn cube_corners_fixed_shape() {
    let c = Cube::new(&Point::new(700, 200), 120);
    let v = locs(&c.corners());
    assert_eq!(
        v,
        vec![
            (700, 200), (820, 200), (700, 320), (820, 320),
            (760, 140), (880, 140), (760, 260), (880, 260),
        ]
    );
    for i in 0..8 {
        for j in 0..8 {
            if i != j {
                assert_ne!(v[i], v[j]);
            }
        }
    }
}

#[test]
fn cube_random_within_bounds() {
    for _ in 0..50 {
        let c = Cube::random(1000, 1000).unwrap();
        assert!(10 <= c.size && c.size < 125);
        assert!(c.size <= c.front_top_left.x && c.front_top_left.x < 1000 - c.size);
        assert!(c.size <= c.front_top_left.y && c.front_top_left.y < 1000 - c.size);
        assert!(300 <= c.depth_factor && c.depth_factor < 700);
    }
    assert_eq!(Cube::random(87, 1000).unwrap_err(), ShapeError::InvalidInput);
}

#[test]
fn rectangle_closed_path_from_swapped_corners() {
    let r = Rectangle::new(&Point::new(150, 150), &Point::new(50, 50));
    let c = locs(&r.corners());
    assert_eq!(c, vec![(150, 150), (50, 150), (50, 50), (150, 50)]);
}

#[test]
fn display_out_of_bounds_is_a_no_op() {
    let mut canvas = Canvas::new(8, 6);
    let color = Color { r: 1, g: 2, b: 3, a: 255 };
    canvas.display(-1, 3, color);
    canvas.display(8, 3, color);
    canvas.display(3, -1, color);
    canvas.display(3, 6, color);
    for x in 0..8 {
        for y in 0..6 {
            let c = canvas.pixel_at(x, y).unwrap();
            assert_eq!((c.r, c.g, c.b, c.a), (0, 0, 0, 255));
        }
    }
}

#[test]
fn display_in_bounds_sets_one_pixel() {
    let mut canvas = Canvas::new(8, 6);
    let color = Color { r: 9, g: 8, b: 7, a: 255 };
    canvas.display(3, 4, color);
    for x in 0..8 {
        for y in 0..6 {
            let c = canvas.pixel_at(x, y).unwrap();
            if (x, y) == (3, 4) {
                assert_eq!((c.r, c.g, c.b, c.a), (9, 8, 7, 255));
            } else {
                assert_eq!((c.r, c.g, c.b, c.a), (0, 0, 0, 255));
            }
        }
    }
    assert!(canvas.pixel_at(8, 0).is_none());
}

#[test]
fn random_colors_are_opaque() {
    for _ in 0..200 {
        let c = random_color();
        assert_eq!(c.a, 255);
        assert!(c.r < 255);
        assert!(c.g < 255);
        assert!(c.b < 255);
    }
    let shape = Point::new(1, 1);
    let c = shape.color();
    assert_eq!(c.a, 255);
    assert!(c.r < 255 && c.g < 255 && c.b < 255);
}

#[test]
fn line_draw_paints_its_pixels() {
    let mut canvas = Canvas::new(10, 10);
    let l = Line::new(&Point::new(0, 0), &Point::new(5, 0));
    l.draw(&mut canvas);
    let mut first = None;
    for x in 0..6 {
        let c = canvas.pixel_at(x, 0).unwrap();
        assert!(c.r < 255 && c.g < 255 && c.b < 255, "pixel {} out of range", x);
        assert_eq!(c.a, 255);
        match first {
            None => first = Some(c),
            Some(f) => assert_eq!((c.r, c.g, c.b), (f.r, f.g, f.b)),
        }
    }
    // A pixel off the segment keeps the black background.
    let c = canvas.pixel_at(6, 0).unwrap();
    assert_eq!((c.r, c.g, c.b, c.a), (0, 0, 0, 255));
}

#[test]
fn triangle_draw_paints_its_corners() {
    let mut canvas = Canvas::new(32, 32);
    let t = Triangle::new(&Point::new(2, 2), &Point::new(20, 5), &Point::new(10, 25));
    t.draw(&mut canvas);
    for q in [(2, 2), (20, 5), (10, 25)] {
        let c = canvas.pixel_at(q.0, q.1).unwrap();
        assert_eq!(c.a, 255);
        assert!(c.r < 255 && c.g < 255 && c.b < 255);
    }
}

#[test]
fn clipped_draw_leaves_canvas_untouched() {
    let mut canvas = Canvas::new(4, 4);
    let l = Line::new(&Point::new(10, 10), &Point::new(20, 20));
    l.draw(&mut canvas);
    for x in 0..4 {
        for y in 0..4 {
            let c = canvas.pixel_at(x, y).unwrap();
            assert_eq!((c.r, c.g, c.b, c.a), (0, 0, 0, 255));
        }
    }
}
