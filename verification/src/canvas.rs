//! The pixel canvas: an RGBA color value and a bounded, clipping pixel grid.
use vstd::prelude::*;

verus! {

/// An RGBA8 color value.
#[derive(Clone, Copy, PartialEq, Eq, Structural, Debug)]
pub struct Color {
    pub r: u8,
    pub g: u8,
    pub b: u8,
    pub a: u8,
}

/// The colors that random color generation produces: fully opaque,
/// with each of r, g, b strictly below 255.
pub open spec fn rgb_opaque(c: Color) -> bool {
    c.a == 255 && c.r < 255 && c.g < 255 && c.b < 255
}

/// The background color of a freshly allocated canvas: opaque black.
pub open spec fn background() -> Color {
    Color { r: 0, g: 0, b: 0, a: 255 }
}

/// The capability a canvas offers: accept a bounded pixel write,
/// silently dropping writes that fall outside the canvas.
pub trait Displayable: Sized {
    /// What the canvas asks of its callers before a write.
    spec fn display_req(&self) -> bool;

    /// What one pixel write does to the canvas.
    spec fn display_spec(pre: Self, post: Self, x: int, y: int, c: Color) -> bool;

    fn display(&mut self, x: i32, y: i32, color: Color)
        requires
            old(self).display_req(),
        ensures
            Self::display_spec(*old(self), *final(self), x as int, y as int, color),
    ;
}

/// A width x height grid of pixels, row-major.  Writes outside the
/// bounds are silently dropped.
pub struct Canvas {
    width: i32,
    height: i32,
    pixels: Vec<Color>,
}

impl Canvas {
    /// Positive dimensions, and one stored color per grid cell.
    pub closed spec fn wf(&self) -> bool {
        0 < self.width && 0 < self.height
        && self.pixels@.len() == self.width as int * self.height as int
    }

    pub closed spec fn w(&self) -> int {
        self.width as int
    }

    pub closed spec fn h(&self) -> int {
        self.height as int
    }

    pub open spec fn in_bounds(&self, x: int, y: int) -> bool {
        0 <= x < self.w() && 0 <= y < self.h()
    }

    /// The color of the pixel at (x, y); meaningful when in bounds.
    pub closed spec fn pix(&self, x: int, y: int) -> Color {
        self.pixels@[y * self.w() + x]
    }

    /// Allocate a blank canvas, every pixel the background color.
    pub fn new(width: i32, height: i32) -> (r: Canvas)
        requires
            0 < width,
            0 < height,
            width as int * height as int <= usize::MAX as int,
        ensures
            r.wf(),
            r.w() == width as int,
            r.h() == height as int,
            forall|x: int, y: int| r.in_bounds(x, y) ==> r.pix(x, y) == background(),
    {
        let n: usize = (width as usize) * (height as usize);
        let mut pixels: Vec<Color> = Vec::new();
        let mut i: usize = 0;
        while i < n
            invariant
                i <= n,
                pixels@.len() == i as int,
                forall|k: int| 0 <= k < i as int ==> pixels@[k] == background(),
            decreases n - i,
        {
            pixels.push(Color { r: 0, g: 0, b: 0, a: 255 });
            i = i + 1;
        }
        let r = Canvas { width, height, pixels };
        proof {
            assert forall|x: int, y: int| r.in_bounds(x, y) implies r.pix(x, y) == background() by {
                lemma_index_in_grid(r.w(), r.h(), x, y);
            }
        }
        r
    }

    pub fn width(&self) -> (r: i32)
        ensures
            r as int == self.w(),
    {
        self.width
    }

    pub fn height(&self) -> (r: i32)
        ensures
            r as int == self.h(),
    {
        self.height
    }

    /// Read the pixel at (x, y), or None when (x, y) is out of bounds.
    pub fn pixel_at(&self, x: i32, y: i32) -> (r: Option<Color>)
        requires
            self.wf(),
        ensures
            self.in_bounds(x as int, y as int) ==> r == Some(self.pix(x as int, y as int)),
            !self.in_bounds(x as int, y as int) ==> r == None::<Color>,
    {
        if 0 <= x && x < self.width && 0 <= y && y < self.height {
            let len: usize = self.pixels.len();
            proof {
                lemma_index_in_grid(self.w(), self.h(), x as int, y as int);
                assert(0 <= y as int * self.w()) by (nonlinear_arith)
                    requires 0 <= y as int, 0 < self.w(),
                {
                }
            }
            let idx: usize = (y as usize) * (self.width as usize) + (x as usize);
            Some(self.pixels[idx])
        } else {
            None
        }
    }
}

impl Displayable for Canvas {
    /// The canvas must be well-formed.
    open spec fn display_req(&self) -> bool {
        self.wf()
    }

    /// An in-bounds write sets exactly that pixel; an out-of-bounds
    /// write leaves the canvas exactly as it was.
    open spec fn display_spec(pre: Canvas, post: Canvas, x: int, y: int, c: Color) -> bool {
        &&& post.wf()
        &&& post.w() == pre.w()
        &&& post.h() == pre.h()
        &&& (pre.in_bounds(x, y) ==> forall|i: int, j: int|
                pre.in_bounds(i, j)
                    ==> #[trigger] post.pix(i, j) == if i == x && j == y { c } else { pre.pix(i, j) })
        &&& (!pre.in_bounds(x, y) ==> post == pre)
    }

    fn display(&mut self, x: i32, y: i32, color: Color) {
        if 0 <= x && x < self.width && 0 <= y && y < self.height {
            let len: usize = self.pixels.len();
            proof {
                lemma_index_in_grid(self.w(), self.h(), x as int, y as int);
                assert(0 <= y as int * self.w()) by (nonlinear_arith)
                    requires 0 <= y as int, 0 < self.w(),
                {
                }
            }
            let idx: usize = (y as usize) * (self.width as usize) + (x as usize);
            self.pixels[idx] = color;
            proof {
                let pre = *old(self);
                assert forall|i: int, j: int| pre.in_bounds(i, j)
                    implies #[trigger] self.pix(i, j)
                        == if i == x as int && j == y as int { color } else { pre.pix(i, j) } by {
                    lemma_index_in_grid(pre.w(), pre.h(), i, j);
                    if !(i == x as int && j == y as int)
                        && j * pre.w() + i == y as int * pre.w() + x as int {
                        lemma_index_injective(pre.w(), pre.h(), i, j, x as int, y as int);
                    }
                }
            }
        }
    }
}

/// The row-major index of an in-bounds cell lies inside the grid.
proof fn lemma_index_in_grid(w: int, h: int, x: int, y: int)
    requires
        0 <= x < w,
        0 <= y < h,
    ensures
        0 <= y * w + x < w * h,
{
    assert(y * w + x < w * h) by (nonlinear_arith)
        requires 0 <= x < w, 0 <= y < h,
    {
    }
    assert(0 <= y * w) by (nonlinear_arith)
        requires 0 <= y, 0 < w,
    {
    }
}

/// Distinct in-bounds cells have distinct row-major indices.
proof fn lemma_index_injective(w: int, h: int, x1: int, y1: int, x2: int, y2: int)
    requires
        0 <= x1 < w,
        0 <= y1 < h,
        0 <= x2 < w,
        0 <= y2 < h,
        y1 * w + x1 == y2 * w + x2,
    ensures
        x1 == x2 && y1 == y2,
{
    assert(y1 == y2 && x1 == x2) by (nonlinear_arith)
        requires
            0 <= x1 < w,
            0 <= y1 < h,
            0 <= x2 < w,
            0 <= y2 < h,
            y1 * w + x1 == y2 * w + x2,
    {
    }
}

} // verus!
