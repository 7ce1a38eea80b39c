//! An axis-aligned rectangle: four line segments between two corners.
use vstd::prelude::*;
use crate::canvas::Canvas;
use crate::canvas::Color;
use crate::drawable::Drawable;
use crate::line::Line;
use crate::line::line_path;
use crate::paint::choose_stroke;
use crate::paint::lemma_painted_empty;
use crate::paint::lemma_painted_step;
use crate::paint::opaque_all;
use crate::paint::painted;
use crate::point::Point;
use crate::rng::random_color;

verus! {

/// A rectangle over two corner points, each copied at construction.
/// The corners may be passed in any relative order: the two derived
/// corners always close the quadrilateral.
#[derive(Clone, Copy, PartialEq, Eq, Structural, Debug)]
pub struct Rectangle {
    pub top_left: Point,
    pub bottom_right: Point,
}

/// The four corners the rectangle draws through, in drawing order:
/// top_left, the derived top_right, bottom_right, the derived bottom_left.
pub open spec fn rect_corners(r: Rectangle) -> Seq<(int, int)> {
    seq![
        r.top_left.loc(),
        (r.bottom_right.x as int, r.top_left.y as int),
        r.bottom_right.loc(),
        (r.top_left.x as int, r.bottom_right.y as int),
    ]
}

impl Rectangle {
    pub fn new(point1: &Point, point2: &Point) -> (r: Rectangle)
        ensures
            r.top_left == *point1,
            r.bottom_right == *point2,
    {
        Rectangle {
            top_left: Point::new(point1.x, point1.y),
            bottom_right: Point::new(point2.x, point2.y),
        }
    }

    /// The four corners of the drawn quadrilateral, in drawing order.
    pub fn corners(&self) -> (c: Vec<Point>)
        ensures
            crate::point::locs(c@) == rect_corners(*self),
    {
        let top_right = Point::new(self.bottom_right.x, self.top_left.y);
        let bottom_left = Point::new(self.top_left.x, self.bottom_right.y);
        let mut c: Vec<Point> = Vec::new();
        c.push(Point::new(self.top_left.x, self.top_left.y));
        c.push(top_right);
        c.push(Point::new(self.bottom_right.x, self.bottom_right.y));
        c.push(bottom_left);
        proof {
            assert(crate::point::locs(c@) =~= rect_corners(*self));
        }
        c
    }
}

impl Drawable for Rectangle {
    /// Four strokes: the closed edge cycle through the four corners.
    open spec fn paths(&self) -> Seq<Seq<(int, int)>> {
        let c = rect_corners(*self);
        seq![
            line_path(c[0], c[1]),
            line_path(c[1], c[2]),
            line_path(c[2], c[3]),
            line_path(c[3], c[0]),
        ]
    }

    open spec fn draw_req(&self) -> bool {
        true
    }

    fn draw(&self, canvas: &mut Canvas) {
        let ghost pre = *canvas;
        let top_right = Point::new(self.bottom_right.x, self.top_left.y);
        let bottom_left = Point::new(self.top_left.x, self.bottom_right.y);
        let l1 = Line::new(&self.top_left, &top_right);
        l1.draw(canvas);
        let ghost m1 = *canvas;
        let l2 = Line::new(&top_right, &self.bottom_right);
        l2.draw(canvas);
        let ghost m2 = *canvas;
        let l3 = Line::new(&self.bottom_right, &bottom_left);
        l3.draw(canvas);
        let ghost m3 = *canvas;
        let l4 = Line::new(&bottom_left, &self.top_left);
        l4.draw(canvas);
        proof {
            let c1 = choose_stroke(pre, m1, l1.paths());
            let c2 = choose_stroke(m1, m2, l2.paths());
            let c3 = choose_stroke(m2, m3, l3.paths());
            let c4 = choose_stroke(m3, *canvas, l4.paths());
            let e = Seq::<Seq<(int, int)>>::empty();
            let ec = Seq::<Color>::empty();
            lemma_painted_empty(pre);
            lemma_painted_step(pre, pre, m1, e, ec, l1.paths()[0], c1);
            lemma_painted_step(pre, m1, m2, e.push(l1.paths()[0]), ec.push(c1), l2.paths()[0], c2);
            lemma_painted_step(pre, m2, m3,
                e.push(l1.paths()[0]).push(l2.paths()[0]), ec.push(c1).push(c2), l3.paths()[0], c3);
            lemma_painted_step(pre, m3, *canvas,
                e.push(l1.paths()[0]).push(l2.paths()[0]).push(l3.paths()[0]),
                ec.push(c1).push(c2).push(c3), l4.paths()[0], c4);
            let cs = ec.push(c1).push(c2).push(c3).push(c4);
            assert(e.push(l1.paths()[0]).push(l2.paths()[0]).push(l3.paths()[0]).push(l4.paths()[0])
                =~= self.paths());
            assert(opaque_all(cs));
            assert(painted(pre, *canvas, self.paths(), cs));
        }
    }

    /// A fresh uniformly random opaque color, resampled on every call.
    fn color(&self) -> (c: Color) {
        random_color()
    }
}

} // verus!
