//! A regular pentagon: five line segments between five vertices placed
//! on a circle around the center.
//!
//! The vertex at angle 2*pi*i/5 has offsets radius*cos and radius*sin,
//! truncated toward zero.  The trigonometric factors are carried as
//! fixed-point constants in millionths, themselves truncated toward zero.
use vstd::prelude::*;
use crate::canvas::Canvas;
use crate::canvas::Color;
use crate::drawable::Drawable;
use crate::line::Line;
use crate::line::iabs;
use crate::line::line_path;
use crate::paint::choose_stroke;
use crate::paint::lemma_painted_empty;
use crate::paint::lemma_painted_step;
use crate::paint::opaque_all;
use crate::paint::painted;
use crate::point::Point;
use crate::rng::ShapeError;
use crate::rng::rand_range_i32;
use crate::rng::random_color;
use crate::circle::gen_max_radius;
use vstd::arithmetic::div_mod::lemma_div_is_ordered;
use vstd::arithmetic::div_mod::lemma_div_by_multiple;
use vstd::arithmetic::div_mod::lemma_div_pos_is_pos;
use vstd::arithmetic::div_mod::lemma_fundamental_div_mod;
use vstd::arithmetic::div_mod::lemma_mod_bound;

verus! {

/// cos(2*pi*i/5) in millionths, truncated toward zero.
pub open spec fn pent_cos(i: int) -> int {
    if i == 0 { 1000000 }
    else if i == 1 { 309016 }
    else if i == 2 { -809016 }
    else if i == 3 { -809016 }
    else { 309016 }
}

/// sin(2*pi*i/5) in millionths, truncated toward zero.
pub open spec fn pent_sin(i: int) -> int {
    if i == 0 { 0 }
    else if i == 1 { 951056 }
    else if i == 2 { 587785 }
    else if i == 3 { -587785 }
    else { -951056 }
}

/// radius * k / 1000000, truncated toward zero.
pub open spec fn scaled(r: int, k: int) -> int {
    let m = (iabs(r) * iabs(k)) / 1000000;
    if (r < 0) != (k < 0) { -m } else { m }
}

/// Vertex i of the pentagon with the given center and radius.
pub open spec fn pentagon_vertex(c: (int, int), r: int, i: int) -> (int, int) {
    (c.0 + scaled(r, pent_cos(i)), c.1 + scaled(r, pent_sin(i)))
}

/// radius * k / 1000000 truncated toward zero, exactly; the result's
/// magnitude never exceeds the radius's.
fn scaled_exec(radius: i32, k: i64) -> (r: i64)
    requires
        -1000000 <= k <= 1000000,
    ensures
        r as int == scaled(radius as int, k as int),
        iabs(r as int) <= iabs(radius as int),
{
    let rm: u64 = if radius < 0 { (-(radius as i64)) as u64 } else { radius as u64 };
    let km: u64 = if k < 0 { (-k) as u64 } else { k as u64 };
    proof {
        assert(rm as int <= 2147483648);
        assert(km as int <= 1000000);
        assert(rm as int * km as int <= 2147483648int * 1000000) by (nonlinear_arith)
            requires 0 <= rm as int <= 2147483648, 0 <= km as int <= 1000000,
        {
        }
    }
    let m: u64 = rm * km / 1000000;
    proof {
        assert(rm as int * km as int <= rm as int * 1000000) by (nonlinear_arith)
            requires 0 <= rm as int, 0 <= km as int <= 1000000,
        {
        }
        lemma_div_is_ordered(rm as int * km as int, rm as int * 1000000, 1000000);
        lemma_div_by_multiple(rm as int, 1000000);
        lemma_div_pos_is_pos(rm as int * km as int, 1000000);
        assert(rm as int * km as int >= 0) by (nonlinear_arith)
            requires 0 <= rm as int, 0 <= km as int,
        {
        }
    }
    if (radius < 0) != (k < 0) { -(m as i64) } else { m as i64 }
}

/// How far one truncated scaled offset can sit from the exact product:
/// squared and scaled by the denominator, it is at most the product and,
/// once the product reaches one denominator unit, at least the product
/// less one unit.
proof fn lemma_scaled_sq(r: int, k: int)
    requires
        1 <= r,
        -1000000 <= k <= 1000000,
    ensures
        ({
            let o = scaled(r, k);
            let a = r * iabs(k);
            &&& (1000000 * o) * (1000000 * o) <= a * a
            &&& (a >= 1000000 ==> (a - 1000000) * (a - 1000000) <= (1000000 * o) * (1000000 * o))
        }),
{
    let kk = iabs(k);
    let a = r * kk;
    let m = a / 1000000;
    let o = scaled(r, k);
    assert(iabs(r) == r);
    assert(a >= 0) by (nonlinear_arith)
        requires r >= 1, kk >= 0, a == r * kk,
    {
    }
    lemma_fundamental_div_mod(a, 1000000);
    lemma_mod_bound(a, 1000000);
    lemma_div_pos_is_pos(a, 1000000);
    assert(1000000 * m <= a < 1000000 * m + 1000000);
    assert(o == m || o == -m);
    assert((1000000 * o) * (1000000 * o) == (1000000 * m) * (1000000 * m)) by (nonlinear_arith)
        requires o == m || o == -m,
    {
    }
    assert((1000000 * m) * (1000000 * m) <= a * a) by (nonlinear_arith)
        requires 0 <= 1000000 * m, 1000000 * m <= a,
    {
    }
    if a >= 1000000 {
        assert(a - 1000000 < 1000000 * m);
        assert((a - 1000000) * (a - 1000000) <= (1000000 * m) * (1000000 * m)) by (nonlinear_arith)
            requires 0 <= a - 1000000, a - 1000000 <= 1000000 * m,
        {
        }
    }
}

/// Each generated vertex is nearly equidistant from the center: for radii
/// from 2 to 100000, the squared distance to the center lies between
/// (radius - 2)^2 and radius^2, so each vertex misses the exact circle by
/// less than two pixels.
#[verifier::rlimit(50)]
pub proof fn lemma_pentagon_vertex_distance(c: (int, int), r: int, i: int)
    requires
        0 <= i < 5,
        2 <= r <= 100000,
    ensures
        ({
            let v = pentagon_vertex(c, r, i);
            let ox = v.0 - c.0;
            let oy = v.1 - c.1;
            &&& ox * ox + oy * oy <= r * r
            &&& (r - 2) * (r - 2) <= ox * ox + oy * oy
        }),
{
    let kc = iabs(pent_cos(i));
    let ks = iabs(pent_sin(i));
    let ox = scaled(r, pent_cos(i));
    let oy = scaled(r, pent_sin(i));
    let a = r * kc;
    let b = r * ks;
    lemma_scaled_sq(r, pent_cos(i));
    lemma_scaled_sq(r, pent_sin(i));
    assert(a * a + b * b <= (r * 1000000) * (r * 1000000)) by (nonlinear_arith)
        requires
            a == r * kc,
            b == r * ks,
            0 <= r,
            kc * kc + ks * ks <= 1000000000000,
            0 <= kc,
            0 <= ks,
    {
    }
    assert(ox * ox + oy * oy <= r * r) by (nonlinear_arith)
        requires
            (1000000 * ox) * (1000000 * ox) <= a * a,
            (1000000 * oy) * (1000000 * oy) <= b * b,
            a * a + b * b <= (r * 1000000) * (r * 1000000),
    {
    }
    if i == 0 {
        lemma_div_by_multiple(r, 1000000);
        assert(ox == r);
        assert(oy == 0);
        assert((r - 2) * (r - 2) <= r * r) by (nonlinear_arith)
            requires 2 <= r,
        {
        }
    } else if (i == 1 || i == 4) && r <= 3 {
        assert(kc == 309016 && ks == 951056);
        if r == 2 {
            assert(ox == 618032int / 1000000 || ox == -(618032int / 1000000));
            assert(oy == 1902112int / 1000000 || oy == -(1902112int / 1000000));
            assert((r - 2) * (r - 2) <= ox * ox + oy * oy) by (nonlinear_arith)
                requires r == 2, ox == 0, oy == 1 || oy == -1,
            {
            }
        } else {
            assert(r == 3);
            assert(ox == 927048int / 1000000 || ox == -(927048int / 1000000));
            assert(oy == 2853168int / 1000000 || oy == -(2853168int / 1000000));
            assert((r - 2) * (r - 2) <= ox * ox + oy * oy) by (nonlinear_arith)
                requires r == 3, ox == 0, oy == 2 || oy == -2,
            {
            }
        }
    } else {
        if i == 1 || i == 4 {
            assert(r >= 4);
            assert(a >= 1000000 && b >= 1000000) by (nonlinear_arith)
                requires a == r * 309016, b == r * 951056, r >= 4,
            {
            }
            assert((r - 2) * (r - 2) * 1000000 * 1000000
                <= (a - 1000000) * (a - 1000000) + (b - 1000000) * (b - 1000000)) by (nonlinear_arith)
                requires a == r * 309016, b == r * 951056, 4 <= r <= 100000,
            {
            }
        } else {
            assert(i == 2 || i == 3);
            assert(kc == 809016 && ks == 587785);
            assert(a >= 1000000 && b >= 1000000) by (nonlinear_arith)
                requires a == r * 809016, b == r * 587785, r >= 2,
            {
            }
            assert((r - 2) * (r - 2) * 1000000 * 1000000
                <= (a - 1000000) * (a - 1000000) + (b - 1000000) * (b - 1000000)) by (nonlinear_arith)
                requires a == r * 809016, b == r * 587785, 2 <= r <= 100000,
            {
            }
        }
        assert((r - 2) * (r - 2) <= ox * ox + oy * oy) by (nonlinear_arith)
            requires
                (a - 1000000) * (a - 1000000) <= (1000000 * ox) * (1000000 * ox),
                (b - 1000000) * (b - 1000000) <= (1000000 * oy) * (1000000 * oy),
                (r - 2) * (r - 2) * 1000000 * 1000000
                    <= (a - 1000000) * (a - 1000000) + (b - 1000000) * (b - 1000000),
        {
        }
    }
}

/// A regular pentagon with a center and an integer radius.
#[derive(Clone, Copy, PartialEq, Eq, Structural, Debug)]
pub struct Pentagon {
    pub center: Point,
    pub radius: i32,
}

impl Pentagon {
    /// Every vertex coordinate, center +/- at most |radius|, fits in i32.
    pub open spec fn fit(self) -> bool {
        &&& i32::MIN as int <= self.center.x as int - iabs(self.radius as int)
        &&& self.center.x as int + iabs(self.radius as int) <= i32::MAX as int
        &&& i32::MIN as int <= self.center.y as int - iabs(self.radius as int)
        &&& self.center.y as int + iabs(self.radius as int) <= i32::MAX as int
    }

    pub fn new(center: &Point, radius: i32) -> (r: Pentagon)
        ensures
            r.center == *center,
            r.radius == radius,
    {
        Pentagon { center: Point::new(center.x, center.y), radius }
    }

    /// A pentagon with a random center and a radius sampled from
    /// [5, max(10, min(width, height) / 10)); an empty sampling range
    /// for the center is rejected.
    pub fn random(width: i32, height: i32) -> (r: Result<Pentagon, ShapeError>)
        ensures
            width > 0 && height > 0 <==> r is Ok,
            r matches Ok(p) ==> {
                &&& 0 <= p.center.x < width
                &&& 0 <= p.center.y < height
                &&& 5 <= p.radius < gen_max_radius(width as int, height as int)
            },
            !(width > 0 && height > 0) ==> r == Err::<Pentagon, ShapeError>(ShapeError::InvalidInput),
    {
        let center = Point::random(width, height)?;
        let m: i32 = if width < height { width } else { height };
        let d: i32 = m / 10;
        let max_radius: i32 = if d < 10 { 10 } else { d };
        Ok(Pentagon { center, radius: rand_range_i32(5, max_radius) })
    }

    /// The five vertices, in angle order.
    pub fn vertices(&self) -> (v: Vec<Point>)
        requires
            self.fit(),
        ensures
            v@.len() == 5,
            forall|i: int| 0 <= i < 5
                ==> (#[trigger] v@[i]).loc()
                    == pentagon_vertex(self.center.loc(), self.radius as int, i),
    {
        let cx: i64 = self.center.x as i64;
        let cy: i64 = self.center.y as i64;
        let r = self.radius;
        let mut v: Vec<Point> = Vec::new();
        v.push(Point::new((cx + scaled_exec(r, 1000000)) as i32, (cy + scaled_exec(r, 0)) as i32));
        v.push(Point::new((cx + scaled_exec(r, 309016)) as i32, (cy + scaled_exec(r, 951056)) as i32));
        v.push(Point::new((cx + scaled_exec(r, -809016)) as i32, (cy + scaled_exec(r, 587785)) as i32));
        v.push(Point::new((cx + scaled_exec(r, -809016)) as i32, (cy + scaled_exec(r, -587785)) as i32));
        v.push(Point::new((cx + scaled_exec(r, 309016)) as i32, (cy + scaled_exec(r, -951056)) as i32));
        v
    }
}

impl Drawable for Pentagon {
    /// Five strokes: the closed edge cycle through the five vertices.
    open spec fn paths(&self) -> Seq<Seq<(int, int)>> {
        let c = self.center.loc();
        let r = self.radius as int;
        seq![
            line_path(pentagon_vertex(c, r, 0), pentagon_vertex(c, r, 1)),
            line_path(pentagon_vertex(c, r, 1), pentagon_vertex(c, r, 2)),
            line_path(pentagon_vertex(c, r, 2), pentagon_vertex(c, r, 3)),
            line_path(pentagon_vertex(c, r, 3), pentagon_vertex(c, r, 4)),
            line_path(pentagon_vertex(c, r, 4), pentagon_vertex(c, r, 0)),
        ]
    }

    open spec fn draw_req(&self) -> bool {
        self.fit()
    }

    fn draw(&self, canvas: &mut Canvas) {
        let ghost pre = *canvas;
        let v = self.vertices();
        let p0 = v[0];
        let p1 = v[1];
        let p2 = v[2];
        let p3 = v[3];
        let p4 = v[4];
        let l1 = Line::new(&p0, &p1);
        l1.draw(canvas);
        let ghost m1 = *canvas;
        let l2 = Line::new(&p1, &p2);
        l2.draw(canvas);
        let ghost m2 = *canvas;
        let l3 = Line::new(&p2, &p3);
        l3.draw(canvas);
        let ghost m3 = *canvas;
        let l4 = Line::new(&p3, &p4);
        l4.draw(canvas);
        let ghost m4 = *canvas;
        let l5 = Line::new(&p4, &p0);
        l5.draw(canvas);
        proof {
            let c1 = choose_stroke(pre, m1, l1.paths());
            let c2 = choose_stroke(m1, m2, l2.paths());
            let c3 = choose_stroke(m2, m3, l3.paths());
            let c4 = choose_stroke(m3, m4, l4.paths());
            let c5 = choose_stroke(m4, *canvas, l5.paths());
            let e = Seq::<Seq<(int, int)>>::empty();
            let ec = Seq::<Color>::empty();
            lemma_painted_empty(pre);
            lemma_painted_step(pre, pre, m1, e, ec, l1.paths()[0], c1);
            lemma_painted_step(pre, m1, m2, e.push(l1.paths()[0]), ec.push(c1), l2.paths()[0], c2);
            lemma_painted_step(pre, m2, m3,
                e.push(l1.paths()[0]).push(l2.paths()[0]), ec.push(c1).push(c2), l3.paths()[0], c3);
            lemma_painted_step(pre, m3, m4,
                e.push(l1.paths()[0]).push(l2.paths()[0]).push(l3.paths()[0]),
                ec.push(c1).push(c2).push(c3), l4.paths()[0], c4);
            lemma_painted_step(pre, m4, *canvas,
                e.push(l1.paths()[0]).push(l2.paths()[0]).push(l3.paths()[0]).push(l4.paths()[0]),
                ec.push(c1).push(c2).push(c3).push(c4), l5.paths()[0], c5);
            let cs = ec.push(c1).push(c2).push(c3).push(c4).push(c5);
            assert(e.push(l1.paths()[0]).push(l2.paths()[0]).push(l3.paths()[0])
                .push(l4.paths()[0]).push(l5.paths()[0]) =~= self.paths());
            assert(opaque_all(cs));
            assert(painted(pre, *canvas, self.paths(), cs));
        }
    }

    /// A fresh uniformly random opaque color, resampled on every call.
    fn color(&self) -> (c: Color) {
        random_color()
    }
}

} // verus!
