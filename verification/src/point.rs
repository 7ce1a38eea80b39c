//! An integer 2D coordinate.
use vstd::prelude::*;
use crate::canvas::Canvas;
use crate::canvas::Color;
use crate::canvas::Displayable;
use crate::drawable::Drawable;
use crate::drawable::opaque_all;
use crate::paint::over_paint;
use crate::paint::painted;
use crate::rng::ShapeError;
use crate::rng::rand_range_i32;
use crate::rng::random_color;

verus! {

/// A pixel coordinate.  No bounds are imposed at construction; bounds are
/// only checked when a pixel write reaches a canvas.
#[derive(Clone, Copy, PartialEq, Eq, Structural, Debug)]
pub struct Point {
    pub x: i32,
    pub y: i32,
}

impl Point {
    /// The point as a pair of mathematical integers.
    pub open spec fn loc(self) -> (int, int) {
        (self.x as int, self.y as int)
    }

    pub fn new(x: i32, y: i32) -> (r: Point)
        ensures
            r.x == x,
            r.y == y,
    {
        Point { x, y }
    }

    /// A point sampled uniformly from [0, width) x [0, height);
    /// an empty sampling range is rejected.
    pub fn random(width: i32, height: i32) -> (r: Result<Point, ShapeError>)
        ensures
            width > 0 && height > 0 <==> r is Ok,
            r matches Ok(p) ==> 0 <= p.x < width && 0 <= p.y < height,
            !(width > 0 && height > 0) ==> r == Err::<Point, ShapeError>(ShapeError::InvalidInput),
    {
        if width <= 0 || height <= 0 {
            return Err(ShapeError::InvalidInput);
        }
        Ok(Point { x: rand_range_i32(0, width), y: rand_range_i32(0, height) })
    }
}

impl Drawable for Point {
    /// A point renders one stroke of one pixel.
    open spec fn paths(&self) -> Seq<Seq<(int, int)>> {
        seq![seq![self.loc()]]
    }

    open spec fn draw_req(&self) -> bool {
        true
    }

    fn draw(&self, canvas: &mut Canvas) {
        let ghost pre = *canvas;
        let color = self.color();
        canvas.display(self.x, self.y, color);
        proof {
            let cs = seq![color];
            assert forall|x: int, y: int| pre.in_bounds(x, y)
                implies #[trigger] canvas.pix(x, y) == over_paint(pre, self.paths(), cs, x, y) by {
                assert(self.paths().last() == seq![self.loc()]);
                assert(seq![self.loc()][0] == self.loc());
                if (x, y) == self.loc() {
                    assert(seq![self.loc()].contains((x, y)));
                } else {
                    assert(!seq![self.loc()].contains((x, y)));
                }
                assert(self.paths().drop_last() =~= Seq::<Seq<(int, int)>>::empty());
                assert(cs.drop_last() =~= Seq::<Color>::empty());
                assert(over_paint(pre, Seq::empty(), Seq::empty(), x, y) == pre.pix(x, y));
            }
            assert(opaque_all(cs));
            assert(painted(pre, *canvas, self.paths(), cs));
        }
    }

    /// A fresh uniformly random opaque color, resampled on every call.
    fn color(&self) -> (c: Color) {
        random_color()
    }
}

/// The locations of a sequence of points.
pub open spec fn locs(pts: Seq<Point>) -> Seq<(int, int)> {
    pts.map_values(|p: Point| p.loc())
}

} // verus!
