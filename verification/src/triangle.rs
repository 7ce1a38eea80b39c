//! A triangle: three line segments between three points.
use vstd::prelude::*;
use crate::canvas::Canvas;
use crate::canvas::Color;
use crate::drawable::Drawable;
use crate::line::Line;
use crate::line::line_path;
use crate::paint::choose_stroke;
use crate::paint::lemma_painted_empty;
use crate::paint::lemma_painted_step;
use crate::paint::opaque_all;
use crate::paint::painted;
use crate::point::Point;
use crate::rng::random_color;

verus! {

/// A triangle over three corner points, each copied at construction.
#[derive(Clone, Copy, PartialEq, Eq, Structural, Debug)]
pub struct Triangle {
    pub a: Point,
    pub b: Point,
    pub c: Point,
}

impl Triangle {
    pub fn new(a: &Point, b: &Point, c: &Point) -> (r: Triangle)
        ensures
            r.a == *a,
            r.b == *b,
            r.c == *c,
    {
        Triangle {
            a: Point::new(a.x, a.y),
            b: Point::new(b.x, b.y),
            c: Point::new(c.x, c.y),
        }
    }
}

impl Drawable for Triangle {
    /// Three strokes: the scan-converted edges a-b, b-c, c-a.
    open spec fn paths(&self) -> Seq<Seq<(int, int)>> {
        seq![
            line_path(self.a.loc(), self.b.loc()),
            line_path(self.b.loc(), self.c.loc()),
            line_path(self.c.loc(), self.a.loc()),
        ]
    }

    open spec fn draw_req(&self) -> bool {
        true
    }

    fn draw(&self, canvas: &mut Canvas) {
        let ghost pre = *canvas;
        let l1 = Line::new(&self.a, &self.b);
        l1.draw(canvas);
        let ghost m1 = *canvas;
        let l2 = Line::new(&self.b, &self.c);
        l2.draw(canvas);
        let ghost m2 = *canvas;
        let l3 = Line::new(&self.c, &self.a);
        l3.draw(canvas);
        proof {
            let c1 = choose_stroke(pre, m1, l1.paths());
            let c2 = choose_stroke(m1, m2, l2.paths());
            let c3 = choose_stroke(m2, *canvas, l3.paths());
            let e = Seq::<Seq<(int, int)>>::empty();
            let ec = Seq::<Color>::empty();
            lemma_painted_empty(pre);
            lemma_painted_step(pre, pre, m1, e, ec, l1.paths()[0], c1);
            lemma_painted_step(pre, m1, m2, e.push(l1.paths()[0]), ec.push(c1), l2.paths()[0], c2);
            lemma_painted_step(pre, m2, *canvas,
                e.push(l1.paths()[0]).push(l2.paths()[0]), ec.push(c1).push(c2), l3.paths()[0], c3);
            let cs = ec.push(c1).push(c2).push(c3);
            assert(e.push(l1.paths()[0]).push(l2.paths()[0]).push(l3.paths()[0]) =~= self.paths());
            assert(opaque_all(cs));
            assert(painted(pre, *canvas, self.paths(), cs));
        }
    }

    /// A fresh uniformly random opaque color, resampled on every call.
    fn color(&self) -> (c: Color) {
        random_color()
    }
}

} // verus!
