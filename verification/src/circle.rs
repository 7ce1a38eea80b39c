//! Circular outlines, scan-converted by the midpoint method.
use vstd::prelude::*;
use crate::canvas::Canvas;
use crate::canvas::Color;
use crate::drawable::Drawable;
use crate::drawable::opaque_all;
use crate::paint::painted;
use crate::paint::plot_points;
use crate::point::Point;
use crate::point::locs;
use crate::rng::ShapeError;
use crate::rng::rand_range_i32;
use crate::rng::random_color;

verus! {

/// The eight symmetric pixels plotted for one octant offset (x, y)
/// around the center (cx, cy).
pub open spec fn octet(cx: int, cy: int, x: int, y: int) -> Seq<(int, int)> {
    seq![
        (cx + x, cy + y),
        (cx + y, cy + x),
        (cx - y, cy + x),
        (cx - x, cy + y),
        (cx - x, cy - y),
        (cx - y, cy - x),
        (cx + y, cy - x),
        (cx + x, cy - y),
    ]
}

/// The pixels visited by the midpoint walk from octant state (x, y)
/// with error accumulator err: eight reflections per state, until x < y.
pub open spec fn circ_steps(cx: int, cy: int, x: int, y: int, err: int) -> Seq<(int, int)>
    decreases (if x < y { 0int } else { x - y + 1 }),
{
    if x < y {
        Seq::empty()
    } else {
        let yn = y + 1;
        let e1 = if err <= 0 { err + 2 * yn + 1 } else { err };
        let xn = if e1 > 0 { x - 1 } else { x };
        let e2 = if e1 > 0 { e1 - (2 * xn + 1) } else { e1 };
        octet(cx, cy, x, y) + circ_steps(cx, cy, xn, yn, e2)
    }
}

/// The pixel path of the circular outline with the given center and radius.
/// A negative radius visits nothing; radius 0 visits the center alone.
pub open spec fn circle_path(c: (int, int), r: int) -> Seq<(int, int)> {
    circ_steps(c.0, c.1, r, 0, 0)
}

/// The walk's pixel set is closed under the eight reflections of the
/// offset from the center: whichever octant state put (dx, dy) into the
/// set, the very same state put all eight reflections in.
proof fn lemma_circ_steps_symmetric(cx: int, cy: int, x: int, y: int, err: int, dx: int, dy: int)
    requires
        circ_steps(cx, cy, x, y, err).contains((cx + dx, cy + dy)),
    ensures
        circ_steps(cx, cy, x, y, err).contains((cx + dy, cy + dx)),
        circ_steps(cx, cy, x, y, err).contains((cx - dy, cy + dx)),
        circ_steps(cx, cy, x, y, err).contains((cx - dx, cy + dy)),
        circ_steps(cx, cy, x, y, err).contains((cx - dx, cy - dy)),
        circ_steps(cx, cy, x, y, err).contains((cx - dy, cy - dx)),
        circ_steps(cx, cy, x, y, err).contains((cx + dy, cy - dx)),
        circ_steps(cx, cy, x, y, err).contains((cx + dx, cy - dy)),
    decreases (if x < y { 0int } else { x - y + 1 }),
{
    let s = circ_steps(cx, cy, x, y, err);
    if x < y {
        assert(s.len() == 0);
    } else {
        let oct = octet(cx, cy, x, y);
        let yn = y + 1;
        let e1 = if err <= 0 { err + 2 * yn + 1 } else { err };
        let xn = if e1 > 0 { x - 1 } else { x };
        let e2 = if e1 > 0 { e1 - (2 * xn + 1) } else { e1 };
        let rest = circ_steps(cx, cy, xn, yn, e2);
        assert(s =~= oct + rest);
        let idx = choose|i: int| 0 <= i < s.len() && s[i] == (cx + dx, cy + dy);
        if idx < 8 {
            assert(oct[idx] == (cx + dx, cy + dy));
            assert forall|k: int| 0 <= k < 8 implies s.contains(#[trigger] oct[k]) by {
                assert(s[k] == oct[k]);
            }
        } else {
            assert(rest[idx - 8] == (cx + dx, cy + dy));
            assert(rest.contains((cx + dx, cy + dy)));
            lemma_circ_steps_symmetric(cx, cy, xn, yn, e2, dx, dy);
            assert forall|q: (int, int)| rest.contains(q) implies s.contains(q) by {
                let j = choose|j: int| 0 <= j < rest.len() && rest[j] == q;
                assert(s[j + 8] == q);
            }
        }
    }
}

/// The circular outline's pixel set is symmetric under the eight
/// reflections about its center: whenever it visits center + (dx, dy),
/// it also visits center + (dy, dx) and every sign combination of both.
pub proof fn lemma_circle_path_symmetric(c: (int, int), r: int, dx: int, dy: int)
    requires
        circle_path(c, r).contains((c.0 + dx, c.1 + dy)),
    ensures
        circle_path(c, r).contains((c.0 + dy, c.1 + dx)),
        circle_path(c, r).contains((c.0 - dy, c.1 + dx)),
        circle_path(c, r).contains((c.0 - dx, c.1 + dy)),
        circle_path(c, r).contains((c.0 - dx, c.1 - dy)),
        circle_path(c, r).contains((c.0 - dy, c.1 - dx)),
        circle_path(c, r).contains((c.0 + dy, c.1 - dx)),
        circle_path(c, r).contains((c.0 + dx, c.1 - dy)),
{
    lemma_circ_steps_symmetric(c.0, c.1, r, 0, 0, dx, dy);
}

/// Walk the remaining octant states, appending each visited pixel.
fn circ_collect(cx: i32, cy: i32, x: i64, y: i64, err: i64, pts: &mut Vec<Point>)
    requires
        x >= y ==> {
            &&& 0 <= y
            &&& x <= i32::MAX as i64
            &&& -2 * (x as int) - 2 <= err as int <= 2 * (y as int) + 1
            &&& i32::MIN as int <= cx as int - x as int
            &&& cx as int + x as int <= i32::MAX as int
            &&& i32::MIN as int <= cy as int - x as int
            &&& cy as int + x as int <= i32::MAX as int
        },
    ensures
        locs(final(pts)@) == locs(old(pts)@)
            + circ_steps(cx as int, cy as int, x as int, y as int, err as int),
    decreases (if (x as int) < y as int { 0int } else { x as int - y as int + 1 }),
{
    let ghost rest = circ_steps(cx as int, cy as int, x as int, y as int, err as int);
    if x < y {
        proof {
            assert(locs(pts@) =~= locs(old(pts)@) + rest);
        }
        return;
    }
    pts.push(Point::new((cx as i64 + x) as i32, (cy as i64 + y) as i32));
    pts.push(Point::new((cx as i64 + y) as i32, (cy as i64 + x) as i32));
    pts.push(Point::new((cx as i64 - y) as i32, (cy as i64 + x) as i32));
    pts.push(Point::new((cx as i64 - x) as i32, (cy as i64 + y) as i32));
    pts.push(Point::new((cx as i64 - x) as i32, (cy as i64 - y) as i32));
    pts.push(Point::new((cx as i64 - y) as i32, (cy as i64 - x) as i32));
    pts.push(Point::new((cx as i64 + y) as i32, (cy as i64 - x) as i32));
    pts.push(Point::new((cx as i64 + x) as i32, (cy as i64 - y) as i32));
    proof {
        assert(locs(pts@) =~= locs(old(pts)@) + octet(cx as int, cy as int, x as int, y as int));
    }
    let yn: i64 = y + 1;
    let mut e1: i64 = err;
    if err <= 0 {
        e1 = err + 2 * yn + 1;
    }
    let mut xn: i64 = x;
    if e1 > 0 {
        xn = x - 1;
        e1 = e1 - (2 * xn + 1);
    }
    circ_collect(cx, cy, xn, yn, e1, pts);
    proof {
        assert(rest =~= octet(cx as int, cy as int, x as int, y as int)
            + circ_steps(cx as int, cy as int, xn as int, yn as int, e1 as int));
        assert(locs(pts@) =~= locs(old(pts)@) + rest);
    }
}

/// The exclusive upper bound of a randomly generated radius on a
/// width x height canvas.
pub open spec fn gen_max_radius(w: int, h: int) -> int {
    let m = if w < h { w } else { h };
    if m / 10 < 10 { 10 } else { m / 10 }
}

/// A circular outline with a center and an integer radius.
#[derive(Clone, Copy, PartialEq, Eq, Structural, Debug)]
pub struct Circle {
    pub center: Point,
    pub radius: i32,
}

impl Circle {
    /// Every plotted coordinate, center +/- at most radius, fits in i32.
    pub open spec fn fit(self) -> bool {
        self.radius >= 0 ==> {
            &&& i32::MIN as int <= self.center.x as int - self.radius as int
            &&& self.center.x as int + self.radius as int <= i32::MAX as int
            &&& i32::MIN as int <= self.center.y as int - self.radius as int
            &&& self.center.y as int + self.radius as int <= i32::MAX as int
        }
    }

    pub fn new(center: &Point, radius: i32) -> (r: Circle)
        ensures
            r.center == *center,
            r.radius == radius,
    {
        Circle { center: Point::new(center.x, center.y), radius }
    }

    /// A circle with a random center and a radius sampled from
    /// [5, max(10, min(width, height) / 10)); an empty sampling range
    /// for the center is rejected.
    pub fn random(width: i32, height: i32) -> (r: Result<Circle, ShapeError>)
        ensures
            width > 0 && height > 0 <==> r is Ok,
            r matches Ok(c) ==> {
                &&& 0 <= c.center.x < width
                &&& 0 <= c.center.y < height
                &&& 5 <= c.radius < gen_max_radius(width as int, height as int)
            },
            !(width > 0 && height > 0) ==> r == Err::<Circle, ShapeError>(ShapeError::InvalidInput),
    {
        let center = Point::random(width, height)?;
        let m: i32 = if width < height { width } else { height };
        let d: i32 = m / 10;
        let max_radius: i32 = if d < 10 { 10 } else { d };
        Ok(Circle { center, radius: rand_range_i32(5, max_radius) })
    }

    /// The pixels this outline visits, in walk order.
    pub fn points(&self) -> (pts: Vec<Point>)
        requires
            self.fit(),
        ensures
            locs(pts@) == circle_path(self.center.loc(), self.radius as int),
    {
        let mut pts: Vec<Point> = Vec::new();
        circ_collect(self.center.x, self.center.y, self.radius as i64, 0, 0, &mut pts);
        proof {
            assert(locs(pts@) =~= Seq::<(int, int)>::empty()
                + circle_path(self.center.loc(), self.radius as int));
        }
        pts
    }
}

impl Drawable for Circle {
    /// A circle renders one stroke: its scan-converted outline.
    open spec fn paths(&self) -> Seq<Seq<(int, int)>> {
        seq![circle_path(self.center.loc(), self.radius as int)]
    }

    open spec fn draw_req(&self) -> bool {
        self.fit()
    }

    fn draw(&self, canvas: &mut Canvas) {
        let color = self.color();
        let pts = self.points();
        plot_points(canvas, &pts, color);
        proof {
            let cs = seq![color];
            assert(opaque_all(cs));
            assert(self.paths() =~= seq![locs(pts@)]);
        }
    }

    /// A fresh uniformly random opaque color, resampled on every call.
    fn color(&self) -> (c: Color) {
        random_color()
    }
}

} // verus!
