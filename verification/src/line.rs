//! Straight segments, scan-converted by integer error accumulation.
use vstd::prelude::*;
use crate::canvas::Canvas;
use crate::canvas::Color;
use crate::drawable::Drawable;
use crate::drawable::opaque_all;
use crate::paint::painted;
use crate::paint::plot_points;
use crate::point::Point;
use crate::point::locs;
use crate::rng::ShapeError;
use crate::rng::random_color;

verus! {

pub open spec fn iabs(a: int) -> int {
    if a < 0 { -a } else { a }
}

/// The unit step from `from` toward `to` (when they differ).
pub open spec fn step_toward(from: int, to: int) -> int {
    if from < to { 1 } else { -1 }
}

/// The pixels visited from (x0, y0) walking toward (x1, y1) with error
/// accumulator `err`, where dx, dy and err were set up from the segment
/// endpoints.  Accumulator states with dx < 0 or dy > 0 cannot be set up
/// from any endpoints and end the walk at once.
pub open spec fn bres_steps(x0: int, y0: int, x1: int, y1: int, dx: int, dy: int, err: int) -> Seq<(int, int)>
    decreases iabs(x1 - x0) + iabs(y1 - y0),
{
    seq![(x0, y0)] + if dx < 0 || dy > 0 {
        Seq::empty()
    } else if x0 == x1 && y0 == y1 {
        Seq::empty()
    } else {
        let e2 = 2 * err;
        if e2 >= dy && x0 == x1 {
            Seq::empty()
        } else {
            let xa = if e2 >= dy { x0 + step_toward(x0, x1) } else { x0 };
            let ea = if e2 >= dy { err + dy } else { err };
            if e2 <= dx && y0 == y1 {
                Seq::empty()
            } else {
                let ya = if e2 <= dx { y0 + step_toward(y0, y1) } else { y0 };
                let eb = if e2 <= dx { ea + dx } else { ea };
                bres_steps(xa, ya, x1, y1, dx, dy, eb)
            }
        }
    }
}

/// The pixel path of the segment from a to b: the error accumulation walk
/// started with dx = |b.0 - a.0|, dy = -|b.1 - a.1|, err = dx + dy.
/// It visits both endpoints; start == end visits exactly the one pixel.
pub open spec fn line_path(a: (int, int), b: (int, int)) -> Seq<(int, int)> {
    bres_steps(a.0, a.1, b.0, b.1, iabs(b.0 - a.0), -iabs(b.1 - a.1), iabs(b.0 - a.0) - iabs(b.1 - a.1))
}

/// A line path starts at its start point.
pub proof fn lemma_line_path_starts(a: (int, int), b: (int, int))
    ensures
        line_path(a, b).len() >= 1,
        line_path(a, b)[0] == a,
        line_path(a, b).contains(a),
{
    assert(line_path(a, b)[0] == a);
}

/// From any walk state whose error accumulator carries the closed form
/// dx + dy - dy*rx - dx*ry over the remaining axis distances rx and ry,
/// the walk ends exactly on the target point: the safety stops of the
/// walk never fire early.
proof fn lemma_bres_reaches(x0: int, y0: int, x1: int, y1: int, dx: int, dy: int, err: int)
    requires
        dx >= 0,
        dy <= 0,
        iabs(x1 - x0) <= dx,
        iabs(y1 - y0) <= -dy,
        err == dx + dy - dy * iabs(x1 - x0) - dx * iabs(y1 - y0),
    ensures
        bres_steps(x0, y0, x1, y1, dx, dy, err).last() == (x1, y1),
    decreases iabs(x1 - x0) + iabs(y1 - y0),
{
    let s = bres_steps(x0, y0, x1, y1, dx, dy, err);
    let rx = iabs(x1 - x0);
    let ry = iabs(y1 - y0);
    if x0 == x1 && y0 == y1 {
        assert(s =~= seq![(x0, y0)]);
    } else {
        let e2 = 2 * err;
        if e2 >= dy && x0 == x1 {
            assert(rx == 0);
            assert(ry >= 1);
            assert(dy <= -1);
            assert(2 * err < dy) by (nonlinear_arith)
                requires
                    err == dx + dy - dy * rx - dx * ry,
                    rx == 0,
                    ry >= 1,
                    dy <= -1,
                    dx >= 0,
            {
            }
            assert(false);
        }
        let xa = if e2 >= dy { x0 + step_toward(x0, x1) } else { x0 };
        let ea = if e2 >= dy { err + dy } else { err };
        if e2 <= dx && y0 == y1 {
            assert(ry == 0);
            assert(rx >= 1);
            assert(2 * err > dx) by (nonlinear_arith)
                requires
                    err == dx + dy - dy * rx - dx * ry,
                    ry == 0,
                    rx >= 1,
                    rx <= dx,
                    dy <= 0,
            {
            }
            assert(false);
        }
        let ya = if e2 <= dx { y0 + step_toward(y0, y1) } else { y0 };
        let eb = if e2 <= dx { ea + dx } else { ea };
        let rxa = iabs(x1 - xa);
        let rya = iabs(y1 - ya);
        assert(e2 >= dy ==> x0 != x1);
        assert(e2 >= dy ==> rxa == rx - 1);
        assert(e2 <= dx ==> y0 != y1);
        assert(e2 <= dx ==> rya == ry - 1);
        assert(e2 >= dy || e2 <= dx);
        assert(eb == dx + dy - dy * rxa - dx * rya) by (nonlinear_arith)
            requires
                err == dx + dy - dy * rx - dx * ry,
                ea == if e2 >= dy { err + dy } else { err },
                eb == if e2 <= dx { ea + dx } else { ea },
                rxa == if e2 >= dy { rx - 1 } else { rx },
                rya == if e2 <= dx { ry - 1 } else { ry },
        {
        }
        lemma_bres_reaches(xa, ya, x1, y1, dx, dy, eb);
        let rest = bres_steps(xa, ya, x1, y1, dx, dy, eb);
        assert(rest.len() >= 1);
        assert(s =~= seq![(x0, y0)] + rest);
        assert(s.last() == rest.last());
    }
}

/// A line path ends at its end point: the walk visits both endpoints.
pub proof fn lemma_line_path_ends(a: (int, int), b: (int, int))
    ensures
        line_path(a, b).last() == b,
        line_path(a, b).contains(b),
{
    let dx = iabs(b.0 - a.0);
    let dy = -iabs(b.1 - a.1);
    assert(dx + dy == dx + dy - dy * iabs(b.0 - a.0) - dx * iabs(b.1 - a.1)) by (nonlinear_arith)
        requires dx == iabs(b.0 - a.0), dy == -iabs(b.1 - a.1),
    {
    }
    lemma_bres_reaches(a.0, a.1, b.0, b.1, dx, dy, dx + dy);
    let s = line_path(a, b);
    assert(s[s.len() - 1] == b);
}

/// A degenerate segment, start == end, visits exactly the shared point.
pub proof fn lemma_line_path_single(a: (int, int))
    ensures
        line_path(a, a) == seq![a],
{
    assert(line_path(a, a) =~= seq![a]);
}

/// Absolute value of the difference of two i32 values, exactly.
fn diff_abs(a: i32, b: i32) -> (r: i64)
    ensures
        r as int == iabs(b as int - a as int),
{
    let d: i64 = (b as i64) - (a as i64);
    if d < 0 { -d } else { d }
}

/// Walk the remaining accumulator states, appending each visited pixel.
fn bres_collect(x0: i32, y0: i32, x1: i32, y1: i32, sx: i32, sy: i32, dx: i64, dy: i64, err: i64, pts: &mut Vec<Point>)
    requires
        0 <= dx <= u32::MAX,
        -(u32::MAX as i64) <= dy <= 0,
        2 * (dy as int) <= err as int <= 2 * (dx as int),
        sx == 1 || sx == -1,
        sx == 1 ==> x0 <= x1,
        sx == -1 ==> x0 >= x1,
        sy == 1 || sy == -1,
        sy == 1 ==> y0 <= y1,
        sy == -1 ==> y0 >= y1,
    ensures
        locs(final(pts)@) == locs(old(pts)@)
            + bres_steps(x0 as int, y0 as int, x1 as int, y1 as int, dx as int, dy as int, err as int),
    decreases iabs(x1 as int - x0 as int) + iabs(y1 as int - y0 as int),
{
    let ghost rest = bres_steps(x0 as int, y0 as int, x1 as int, y1 as int, dx as int, dy as int, err as int);
    pts.push(Point::new(x0, y0));
    proof {
        assert(locs(pts@) =~= locs(old(pts)@) + seq![(x0 as int, y0 as int)]);
    }
    if x0 == x1 && y0 == y1 {
        proof {
            assert(rest =~= seq![(x0 as int, y0 as int)]);
            assert(locs(pts@) =~= locs(old(pts)@) + rest);
        }
        return;
    }
    let e2: i64 = 2 * err;
    let mut xa = x0;
    let mut erra = err;
    if e2 >= dy {
        if x0 == x1 {
            proof {
                assert(rest =~= seq![(x0 as int, y0 as int)]);
                assert(locs(pts@) =~= locs(old(pts)@) + rest);
            }
            return;
        }
        erra = err + dy;
        xa = x0 + sx;
    }
    if e2 <= dx {
        if y0 == y1 {
            proof {
                assert(rest =~= seq![(x0 as int, y0 as int)]);
                assert(locs(pts@) =~= locs(old(pts)@) + rest);
            }
            return;
        }
        erra = erra + dx;
        let yb = y0 + sy;
        bres_collect(xa, yb, x1, y1, sx, sy, dx, dy, erra, pts);
        proof {
            assert(rest =~= seq![(x0 as int, y0 as int)]
                + bres_steps(xa as int, yb as int, x1 as int, y1 as int, dx as int, dy as int, erra as int));
            assert(locs(pts@) =~= locs(old(pts)@) + rest);
        }
    } else {
        bres_collect(xa, y0, x1, y1, sx, sy, dx, dy, erra, pts);
        proof {
            assert(rest =~= seq![(x0 as int, y0 as int)]
                + bres_steps(xa as int, y0 as int, x1 as int, y1 as int, dx as int, dy as int, erra as int));
            assert(locs(pts@) =~= locs(old(pts)@) + rest);
        }
    }
}

/// A straight segment between two points, both copied at construction.
#[derive(Clone, Copy, PartialEq, Eq, Structural, Debug)]
pub struct Line {
    pub start: Point,
    pub end: Point,
}

impl Line {
    pub fn new(start: &Point, end: &Point) -> (r: Line)
        ensures
            r.start == *start,
            r.end == *end,
    {
        Line { start: Point::new(start.x, start.y), end: Point::new(end.x, end.y) }
    }

    /// The pixels this segment visits, in walk order: the minimal
    /// 8-connected path between the endpoints, inclusive of both.
    pub fn points(&self) -> (pts: Vec<Point>)
        ensures
            locs(pts@) == line_path(self.start.loc(), self.end.loc()),
    {
        let x0 = self.start.x;
        let y0 = self.start.y;
        let x1 = self.end.x;
        let y1 = self.end.y;
        let dx: i64 = diff_abs(x0, x1);
        let sx: i32 = if x0 < x1 { 1 } else { -1 };
        let dy: i64 = -diff_abs(y0, y1);
        let sy: i32 = if y0 < y1 { 1 } else { -1 };
        let err: i64 = dx + dy;
        let mut pts: Vec<Point> = Vec::new();
        bres_collect(x0, y0, x1, y1, sx, sy, dx, dy, err, &mut pts);
        proof {
            assert(locs(pts@) =~= Seq::<(int, int)>::empty()
                + bres_steps(x0 as int, y0 as int, x1 as int, y1 as int, dx as int, dy as int, err as int));
        }
        pts
    }

    /// A segment between two independently sampled random points;
    /// an empty sampling range is rejected.
    pub fn random(width: i32, height: i32) -> (r: Result<Line, ShapeError>)
        ensures
            width > 0 && height > 0 <==> r is Ok,
            r matches Ok(l) ==> 0 <= l.start.x < width && 0 <= l.start.y < height
                && 0 <= l.end.x < width && 0 <= l.end.y < height,
            !(width > 0 && height > 0) ==> r == Err::<Line, ShapeError>(ShapeError::InvalidInput),
    {
        let start = Point::random(width, height)?;
        let end = Point::random(width, height)?;
        Ok(Line { start, end })
    }
}

impl Drawable for Line {
    /// A segment renders one stroke: its scan-converted pixel path.
    open spec fn paths(&self) -> Seq<Seq<(int, int)>> {
        seq![line_path(self.start.loc(), self.end.loc())]
    }

    open spec fn draw_req(&self) -> bool {
        true
    }

    fn draw(&self, canvas: &mut Canvas) {
        let color = self.color();
        let pts = self.points();
        plot_points(canvas, &pts, color);
        proof {
            let cs = seq![color];
            assert(opaque_all(cs));
            assert(self.paths() =~= seq![locs(pts@)]);
        }
    }

    /// A fresh uniformly random opaque color, resampled on every call.
    fn color(&self) -> (c: Color) {
        random_color()
    }
}

} // verus!
