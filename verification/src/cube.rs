//! A pseudo-3D wireframe cube: twelve line segments between eight corners.
//!
//! The perspective offset between the front and the back face is
//! size * depth_factor, where the depth factor is carried in thousandths
//! of the size and the product is truncated toward zero.
use vstd::prelude::*;
use crate::canvas::Canvas;
use crate::canvas::Color;
use crate::drawable::Drawable;
use crate::line::Line;
use crate::line::iabs;
use crate::line::line_path;
use crate::paint::choose_stroke;
use crate::paint::lemma_painted_empty;
use crate::paint::lemma_painted_step;
use crate::paint::opaque_all;
use crate::paint::painted;
use crate::point::Point;
use crate::rng::ShapeError;
use crate::rng::rand_range_i32;
use crate::rng::random_color;
use vstd::arithmetic::div_mod::lemma_div_is_ordered;
use vstd::arithmetic::div_mod::lemma_div_by_multiple;
use vstd::arithmetic::div_mod::lemma_div_pos_is_pos;
use vstd::arithmetic::div_mod::lemma_fundamental_div_mod;
use vstd::arithmetic::div_mod::lemma_div_by_multiple_is_strongly_ordered;

verus! {

/// size * depth_factor, the factor in thousandths, truncated toward zero.
pub open spec fn cube_depth(size: int, depth_factor: int) -> int {
    let m = (iabs(size) * iabs(depth_factor)) / 1000;
    if (size < 0) != (depth_factor < 0) { -m } else { m }
}

/// A wireframe cube anchored at its front top left corner.
/// `depth_factor` is the perspective offset as thousandths of the size.
#[derive(Clone, Copy, PartialEq, Eq, Structural, Debug)]
pub struct Cube {
    pub front_top_left: Point,
    pub size: i32,
    pub depth_factor: i32,
}

/// Corner i of the cube: 0..3 the front face (top left, top right,
/// bottom left, bottom right), 4..7 the back face in the same order,
/// each front corner offset by (+depth, -depth).
pub open spec fn cube_corner(c: Cube, i: int) -> (int, int) {
    let x = c.front_top_left.x as int;
    let y = c.front_top_left.y as int;
    let s = c.size as int;
    let d = cube_depth(s, c.depth_factor as int);
    if i == 0 { (x, y) }
    else if i == 1 { (x + s, y) }
    else if i == 2 { (x, y + s) }
    else if i == 3 { (x + s, y + s) }
    else if i == 4 { (x + d, y - d) }
    else if i == 5 { (x + s + d, y - d) }
    else if i == 6 { (x + d, y + s - d) }
    else { (x + s + d, y + s - d) }
}

/// The exclusive upper bound of a randomly generated cube size on a
/// width x height canvas.
pub open spec fn gen_max_size(w: int, h: int) -> int {
    let m = if w < h { w } else { h };
    if m / 8 < 10 { 10 } else { m / 8 }
}

/// Whether v fits in an i32.
pub open spec fn in_i32(v: int) -> bool {
    i32::MIN as int <= v <= i32::MAX as int
}

/// For a nonnegative size and a proper depth factor, the depth offset
/// lies between 0 and the size.
pub proof fn lemma_cube_depth_bound(s: int, df: int)
    requires
        0 <= s,
        0 <= df < 1000,
    ensures
        0 <= cube_depth(s, df) <= s,
{
    assert(s * df <= s * 1000) by (nonlinear_arith)
        requires 0 <= s, df <= 1000,
    {
    }
    lemma_div_is_ordered(s * df, s * 1000, 1000);
    lemma_div_by_multiple(s, 1000);
    assert(s * df >= 0) by (nonlinear_arith)
        requires 0 <= s, 0 <= df,
    {
    }
    lemma_div_pos_is_pos(s * df, 1000);
}

/// Whenever the depth offset is positive, the eight corners of a
/// well-formed cube are pairwise distinct, whatever the size and depth
/// factor; the twelve drawn strokes then join genuinely different points.
pub proof fn lemma_cube_corners_distinct(c: Cube)
    requires
        c.wf(),
        cube_depth(c.size as int, c.depth_factor as int) > 0,
    ensures
        forall|i: int, j: int| 0 <= i < 8 && 0 <= j < 8 && i != j
            ==> cube_corner(c, i) != cube_corner(c, j),
{
    let s = c.size as int;
    let df = c.depth_factor as int;
    let d = cube_depth(s, df);
    if s <= 0 {
        assert(0 <= iabs(s));
        assert(0 <= iabs(df));
        assert(iabs(s) * iabs(df) >= 0) by (nonlinear_arith)
            requires 0 <= iabs(s), 0 <= iabs(df),
        {
        }
        lemma_div_pos_is_pos(iabs(s) * iabs(df), 1000);
        assert((iabs(s) * iabs(df)) / 1000 >= 0);
        if s < 0 {
            assert(d == -((iabs(s) * iabs(df)) / 1000));
            assert(d <= 0);
        } else {
            assert(iabs(s) == 0);
            assert(iabs(s) * iabs(df) == 0) by (nonlinear_arith)
                requires iabs(s) == 0,
            {
            }
            assert(d == 0);
        }
        assert(false);
    }
    assert(0 < s);
    assert(s * df <= s * 999) by (nonlinear_arith)
        requires 0 < s, df <= 999,
    {
    }
    lemma_div_is_ordered(s * df, s * 999, 1000);
    assert(s * 999 < s * 1000) by (nonlinear_arith)
        requires 0 < s,
    {
    }
    lemma_div_by_multiple_is_strongly_ordered(s * 999, s * 1000, s, 1000);
    assert(d < s);
}

impl Cube {
    /// The depth factor lies in [0, 1000): a proper fraction of the size.
    pub open spec fn wf(self) -> bool {
        0 <= self.depth_factor < 1000
    }

    /// Every corner coordinate fits in i32.
    pub open spec fn fit(self) -> bool {
        forall|i: int| 0 <= i < 8
            ==> in_i32((#[trigger] cube_corner(self, i)).0) && in_i32(cube_corner(self, i).1)
    }

    /// A cube with the default depth factor, half the size.
    pub fn new(front_top_left: &Point, size: i32) -> (r: Cube)
        ensures
            r.front_top_left == *front_top_left,
            r.size == size,
            r.depth_factor == 500,
            r.wf(),
    {
        Cube {
            front_top_left: Point::new(front_top_left.x, front_top_left.y),
            size,
            depth_factor: 500,
        }
    }

    /// A cube with a random size from [10, max(10, min(width, height) / 8)),
    /// placed so the whole wireframe fits the canvas, with a random depth
    /// factor from [0.300, 0.700); an empty size range is rejected.
    pub fn random(width: i32, height: i32) -> (r: Result<Cube, ShapeError>)
        ensures
            width >= 88 && height >= 88 <==> r is Ok,
            r matches Ok(c) ==> {
                &&& c.wf()
                &&& 10 <= c.size
                &&& (c.size as int) < gen_max_size(width as int, height as int)
                &&& c.size <= c.front_top_left.x && (c.front_top_left.x as int) < width as int - (c.size as int)
                &&& c.size <= c.front_top_left.y && (c.front_top_left.y as int) < height as int - (c.size as int)
                &&& 300 <= c.depth_factor < 700
            },
            !(width >= 88 && height >= 88) ==> r == Err::<Cube, ShapeError>(ShapeError::InvalidInput),
    {
        if width < 88 || height < 88 {
            return Err(ShapeError::InvalidInput);
        }
        let m: i32 = if width < height { width } else { height };
        let max_size: i32 = m / 8;
        proof {
            lemma_fundamental_div_mod(m as int, 8);
        }
        let size = rand_range_i32(10, max_size);
        let x = rand_range_i32(size, width - size);
        let y = rand_range_i32(size, height - size);
        let depth_factor = rand_range_i32(300, 700);
        Ok(Cube { front_top_left: Point { x, y }, size, depth_factor })
    }

    /// size * depth_factor / 1000, truncated toward zero, exactly; its
    /// magnitude never exceeds the size's.
    fn depth(&self) -> (d: i64)
        requires
            self.wf(),
        ensures
            d as int == cube_depth(self.size as int, self.depth_factor as int),
            iabs(d as int) <= iabs(self.size as int),
    {
        let sm: u64 = if self.size < 0 { (-(self.size as i64)) as u64 } else { self.size as u64 };
        let km: u64 = self.depth_factor as u64;
        proof {
            assert(sm as int * km as int <= 2147483648int * 1000) by (nonlinear_arith)
                requires 0 <= sm as int <= 2147483648, 0 <= km as int <= 1000,
            {
            }
            assert(sm as int * km as int <= sm as int * 1000) by (nonlinear_arith)
                requires 0 <= sm as int, 0 <= km as int <= 1000,
            {
            }
            lemma_div_is_ordered(sm as int * km as int, sm as int * 1000, 1000);
            lemma_div_by_multiple(sm as int, 1000);
            assert(sm as int * km as int >= 0) by (nonlinear_arith)
                requires 0 <= sm as int, 0 <= km as int,
            {
            }
            lemma_div_pos_is_pos(sm as int * km as int, 1000);
        }
        let md: u64 = sm * km / 1000;
        if self.size < 0 { -(md as i64) } else { md as i64 }
    }

    /// The eight corners, front face first.
    pub fn corners(&self) -> (v: Vec<Point>)
        requires
            self.wf(),
            self.fit(),
        ensures
            v@.len() == 8,
            forall|i: int| 0 <= i < 8 ==> (#[trigger] v@[i]).loc() == cube_corner(*self, i),
    {
        let x: i64 = self.front_top_left.x as i64;
        let y: i64 = self.front_top_left.y as i64;
        let s: i64 = self.size as i64;
        let d: i64 = self.depth();
        let mut v: Vec<Point> = Vec::new();
        v.push(Point::new(x as i32, y as i32));
        v.push(Point::new((x + s) as i32, y as i32));
        v.push(Point::new(x as i32, (y + s) as i32));
        v.push(Point::new((x + s) as i32, (y + s) as i32));
        v.push(Point::new((x + d) as i32, (y - d) as i32));
        v.push(Point::new((x + s + d) as i32, (y - d) as i32));
        v.push(Point::new((x + d) as i32, (y + s - d) as i32));
        v.push(Point::new((x + s + d) as i32, (y + s - d) as i32));
        proof {
            assert forall|i: int| 0 <= i < 8
                implies (#[trigger] v@[i]).loc() == cube_corner(*self, i) by {
                assert(in_i32(cube_corner(*self, i).0) && in_i32(cube_corner(*self, i).1));
            }
        }
        v
    }
}

impl Drawable for Cube {
    /// Twelve strokes: the four front edges, the four back edges, and
    /// the four connecting edges, in drawing order.
    open spec fn paths(&self) -> Seq<Seq<(int, int)>> {
        let s = *self;
        seq![
            line_path(cube_corner(s, 0), cube_corner(s, 1)),
            line_path(cube_corner(s, 1), cube_corner(s, 3)),
            line_path(cube_corner(s, 3), cube_corner(s, 2)),
            line_path(cube_corner(s, 2), cube_corner(s, 0)),
            line_path(cube_corner(s, 4), cube_corner(s, 5)),
            line_path(cube_corner(s, 5), cube_corner(s, 7)),
            line_path(cube_corner(s, 7), cube_corner(s, 6)),
            line_path(cube_corner(s, 6), cube_corner(s, 4)),
            line_path(cube_corner(s, 0), cube_corner(s, 4)),
            line_path(cube_corner(s, 1), cube_corner(s, 5)),
            line_path(cube_corner(s, 2), cube_corner(s, 6)),
            line_path(cube_corner(s, 3), cube_corner(s, 7)),
        ]
    }

    open spec fn draw_req(&self) -> bool {
        self.wf() && self.fit()
    }

    fn draw(&self, canvas: &mut Canvas) {
        let ghost pre = *canvas;
        let v = self.corners();
        let ftl = v[0];
        let ftr = v[1];
        let fbl = v[2];
        let fbr = v[3];
        let btl = v[4];
        let btr = v[5];
        let bbl = v[6];
        let bbr = v[7];
        let l1 = Line::new(&ftl, &ftr);
        l1.draw(canvas);
        let ghost m1 = *canvas;
        let l2 = Line::new(&ftr, &fbr);
        l2.draw(canvas);
        let ghost m2 = *canvas;
        let l3 = Line::new(&fbr, &fbl);
        l3.draw(canvas);
        let ghost m3 = *canvas;
        let l4 = Line::new(&fbl, &ftl);
        l4.draw(canvas);
        let ghost m4 = *canvas;
        let l5 = Line::new(&btl, &btr);
        l5.draw(canvas);
        let ghost m5 = *canvas;
        let l6 = Line::new(&btr, &bbr);
        l6.draw(canvas);
        let ghost m6 = *canvas;
        let l7 = Line::new(&bbr, &bbl);
        l7.draw(canvas);
        let ghost m7 = *canvas;
        let l8 = Line::new(&bbl, &btl);
        l8.draw(canvas);
        let ghost m8 = *canvas;
        let l9 = Line::new(&ftl, &btl);
        l9.draw(canvas);
        let ghost m9 = *canvas;
        let l10 = Line::new(&ftr, &btr);
        l10.draw(canvas);
        let ghost m10 = *canvas;
        let l11 = Line::new(&fbl, &bbl);
        l11.draw(canvas);
        let ghost m11 = *canvas;
        let l12 = Line::new(&fbr, &bbr);
        l12.draw(canvas);
        proof {
            let c1 = choose_stroke(pre, m1, l1.paths());
            let c2 = choose_stroke(m1, m2, l2.paths());
            let c3 = choose_stroke(m2, m3, l3.paths());
            let c4 = choose_stroke(m3, m4, l4.paths());
            let c5 = choose_stroke(m4, m5, l5.paths());
            let c6 = choose_stroke(m5, m6, l6.paths());
            let c7 = choose_stroke(m6, m7, l7.paths());
            let c8 = choose_stroke(m7, m8, l8.paths());
            let c9 = choose_stroke(m8, m9, l9.paths());
            let c10 = choose_stroke(m9, m10, l10.paths());
            let c11 = choose_stroke(m10, m11, l11.paths());
            let c12 = choose_stroke(m11, *canvas, l12.paths());
            let e = Seq::<Seq<(int, int)>>::empty();
            let ec = Seq::<Color>::empty();
            let p1 = e.push(l1.paths()[0]);
            let q1 = ec.push(c1);
            let p2 = p1.push(l2.paths()[0]);
            let q2 = q1.push(c2);
            let p3 = p2.push(l3.paths()[0]);
            let q3 = q2.push(c3);
            let p4 = p3.push(l4.paths()[0]);
            let q4 = q3.push(c4);
            let p5 = p4.push(l5.paths()[0]);
            let q5 = q4.push(c5);
            let p6 = p5.push(l6.paths()[0]);
            let q6 = q5.push(c6);
            let p7 = p6.push(l7.paths()[0]);
            let q7 = q6.push(c7);
            let p8 = p7.push(l8.paths()[0]);
            let q8 = q7.push(c8);
            let p9 = p8.push(l9.paths()[0]);
            let q9 = q8.push(c9);
            let p10 = p9.push(l10.paths()[0]);
            let q10 = q9.push(c10);
            let p11 = p10.push(l11.paths()[0]);
            let q11 = q10.push(c11);
            let p12 = p11.push(l12.paths()[0]);
            let q12 = q11.push(c12);
            lemma_painted_empty(pre);
            lemma_painted_step(pre, pre, m1, e, ec, l1.paths()[0], c1);
            lemma_painted_step(pre, m1, m2, p1, q1, l2.paths()[0], c2);
            lemma_painted_step(pre, m2, m3, p2, q2, l3.paths()[0], c3);
            lemma_painted_step(pre, m3, m4, p3, q3, l4.paths()[0], c4);
            lemma_painted_step(pre, m4, m5, p4, q4, l5.paths()[0], c5);
            lemma_painted_step(pre, m5, m6, p5, q5, l6.paths()[0], c6);
            lemma_painted_step(pre, m6, m7, p6, q6, l7.paths()[0], c7);
            lemma_painted_step(pre, m7, m8, p7, q7, l8.paths()[0], c8);
            lemma_painted_step(pre, m8, m9, p8, q8, l9.paths()[0], c9);
            lemma_painted_step(pre, m9, m10, p9, q9, l10.paths()[0], c10);
            lemma_painted_step(pre, m10, m11, p10, q10, l11.paths()[0], c11);
            lemma_painted_step(pre, m11, *canvas, p11, q11, l12.paths()[0], c12);
            assert(p12 =~= self.paths());
            assert(opaque_all(q12));
            assert(painted(pre, *canvas, self.paths(), q12));
        }
    }

    /// A fresh uniformly random opaque color, resampled on every call.
    fn color(&self) -> (c: Color) {
        random_color()
    }
}

} // verus!
