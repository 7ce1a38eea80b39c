//! The fixed composition sequence: a 1000 x 1000 canvas, a fixed set of
//! shapes and a fixed number of randomized ones, drawn in program order.
use vstd::prelude::*;
use crate::canvas::Canvas;
use crate::canvas::rgb_opaque;
use crate::canvas::background;
use crate::circle::Circle;
use crate::cube::Cube;
use crate::cube::cube_corner;
use crate::cube::lemma_cube_depth_bound;
use crate::drawable::Drawable;
use crate::line::Line;
use crate::line::lemma_line_path_starts;
use crate::paint::lemma_drawn_hit;
use crate::paint::lemma_drawn_opaque;
use crate::pentagon::Pentagon;
use crate::point::Point;
use crate::rectangle::Rectangle;
use crate::rectangle::rect_corners;
use crate::triangle::Triangle;

verus! {

/// Run the whole composition and return the finished canvas: one random
/// line, one random point, the fixed rectangle between (150, 150) and
/// (50, 50), the fixed triangle over (500, 500), (250, 700), (700, 800),
/// 49 random circles, the fixed pentagon at (300, 300) with radius 100,
/// one random pentagon, the fixed cube at (700, 200) with size 120, and
/// one random cube, in that order.
///
/// Every pixel of the result is either still the black background or an
/// opaque sampled color, and the rectangle corner (50, 50) was certainly
/// covered by a stroke.
pub fn compose() -> (canvas: Canvas)
    ensures
        canvas.wf(),
        canvas.w() == 1000,
        canvas.h() == 1000,
        forall|x: int, y: int| canvas.in_bounds(x, y)
            ==> #[trigger] canvas.pix(x, y) == background() || rgb_opaque(canvas.pix(x, y)),
        rgb_opaque(canvas.pix(50, 50)),
{
    let mut canvas = Canvas::new(1000, 1000);

    let line = Line::random(1000, 1000).unwrap();
    let ghost c0 = canvas;
    line.draw(&mut canvas);
    proof {
        lemma_drawn_opaque(c0, canvas, line.paths());
    }

    let point = Point::random(1000, 1000).unwrap();
    let ghost c1 = canvas;
    point.draw(&mut canvas);
    proof {
        lemma_drawn_opaque(c1, canvas, point.paths());
    }

    let corner1 = Point::new(150, 150);
    let corner2 = Point::new(50, 50);
    let rectangle = Rectangle::new(&corner1, &corner2);
    let ghost c2 = canvas;
    rectangle.draw(&mut canvas);
    proof {
        lemma_drawn_opaque(c2, canvas, rectangle.paths());
        lemma_line_path_starts(rect_corners(rectangle)[2], rect_corners(rectangle)[3]);
        assert(rectangle.paths()[2].contains((50int, 50int)));
        lemma_drawn_hit(c2, canvas, rectangle.paths(), 50, 50);
    }

    let vertex_a = Point::new(500, 500);
    let vertex_b = Point::new(250, 700);
    let vertex_c = Point::new(700, 800);
    let triangle = Triangle::new(&vertex_a, &vertex_b, &vertex_c);
    let ghost c3 = canvas;
    triangle.draw(&mut canvas);
    proof {
        lemma_drawn_opaque(c3, canvas, triangle.paths());
    }

    let mut i: usize = 0;
    while i < 49
        invariant
            i <= 49,
            canvas.wf(),
            canvas.w() == 1000,
            canvas.h() == 1000,
            forall|x: int, y: int| canvas.in_bounds(x, y)
                ==> #[trigger] canvas.pix(x, y) == background() || rgb_opaque(canvas.pix(x, y)),
            rgb_opaque(canvas.pix(50, 50)),
        decreases 49 - i,
    {
        let circle = Circle::random(1000, 1000).unwrap();
        let ghost pre = canvas;
        circle.draw(&mut canvas);
        proof {
            lemma_drawn_opaque(pre, canvas, circle.paths());
        }
        i = i + 1;
    }

    let pentagon_center = Point::new(300, 300);
    let pentagon = Pentagon::new(&pentagon_center, 100);
    let ghost c4 = canvas;
    pentagon.draw(&mut canvas);
    proof {
        lemma_drawn_opaque(c4, canvas, pentagon.paths());
    }

    let random_pentagon = Pentagon::random(1000, 1000).unwrap();
    let ghost c5 = canvas;
    random_pentagon.draw(&mut canvas);
    proof {
        lemma_drawn_opaque(c5, canvas, random_pentagon.paths());
    }

    let cube_anchor = Point::new(700, 200);
    let cube = Cube::new(&cube_anchor, 120);
    proof {
        assert(cube.fit()) by {
            assert(crate::line::iabs(120) == 120);
            assert(crate::line::iabs(500) == 500);
            assert(120int * 500 == 60000);
            assert(60000int / 1000 == 60);
            assert(crate::cube::cube_depth(120, 500) == 60);
            assert forall|i: int| 0 <= i < 8
                implies crate::cube::in_i32((#[trigger] cube_corner(cube, i)).0)
                    && crate::cube::in_i32(cube_corner(cube, i).1) by {
            }
        }
    }
    let ghost c6 = canvas;
    cube.draw(&mut canvas);
    proof {
        lemma_drawn_opaque(c6, canvas, cube.paths());
    }

    let random_cube = Cube::random(1000, 1000).unwrap();
    proof {
        lemma_cube_depth_bound(random_cube.size as int, random_cube.depth_factor as int);
        assert forall|i: int| 0 <= i < 8
            implies crate::cube::in_i32((#[trigger] cube_corner(random_cube, i)).0)
                && crate::cube::in_i32(cube_corner(random_cube, i).1) by {
        }
    }
    let ghost c7 = canvas;
    random_cube.draw(&mut canvas);
    proof {
        lemma_drawn_opaque(c7, canvas, random_cube.paths());
    }

    canvas
}

} // verus!
