//! The capability every shape satisfies: render onto a canvas, and
//! produce a color to render with.
use vstd::prelude::*;
use crate::canvas::Canvas;
use crate::canvas::Color;
use crate::canvas::rgb_opaque;
use crate::paint::painted;

verus! {

pub use crate::paint::opaque_all;

/// A shape that can render itself onto a canvas.  Rendering paints the
/// shape's pixel paths, one freshly sampled opaque color per stroke, and
/// touches nothing else.
pub trait Drawable {
    /// The strokes this shape renders, in drawing order.
    spec fn paths(&self) -> Seq<Seq<(int, int)>>;

    /// What the shape asks of its own geometry before rendering
    /// (every plotted coordinate must fit in i32).
    spec fn draw_req(&self) -> bool;

    fn draw(&self, canvas: &mut Canvas)
        requires
            old(canvas).wf(),
            self.draw_req(),
        ensures
            exists|cs: Seq<Color>| opaque_all(cs)
                && #[trigger] painted(*old(canvas), *final(canvas), self.paths(), cs),
    ;

    fn color(&self) -> (c: Color)
        ensures
            rgb_opaque(c),
    ;
}

} // verus!
