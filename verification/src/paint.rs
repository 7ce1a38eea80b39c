//! What a sequence of scan-converted strokes does to a canvas.
//!
//! Every draw operation of this library reduces to: walk an ordered list of
//! pixel paths, painting each path in one color.  `painted` states the result
//! pointwise, and the lemmas here chain single strokes into whole shapes.
use vstd::prelude::*;
use crate::canvas::Canvas;
use crate::canvas::Color;
use crate::canvas::Displayable;
use crate::canvas::rgb_opaque;
use crate::point::Point;
use crate::point::locs;

verus! {

/// The color left at (x, y) after painting `paths`, later paths on top,
/// over a canvas that held `pre`'s pixels.
pub open spec fn over_paint(pre: Canvas, paths: Seq<Seq<(int, int)>>, cols: Seq<Color>, x: int, y: int) -> Color
    decreases paths.len(),
{
    if paths.len() == 0 {
        pre.pix(x, y)
    } else if paths.last().contains((x, y)) {
        cols.last()
    } else {
        over_paint(pre, paths.drop_last(), cols.drop_last(), x, y)
    }
}

/// `post` is `pre` with the strokes `paths` painted in the colors `cols`,
/// in order, clipped to the canvas bounds; nothing else changed.
pub open spec fn painted(pre: Canvas, post: Canvas, paths: Seq<Seq<(int, int)>>, cols: Seq<Color>) -> bool {
    &&& pre.wf()
    &&& post.wf()
    &&& post.w() == pre.w()
    &&& post.h() == pre.h()
    &&& cols.len() == paths.len()
    &&& forall|x: int, y: int| pre.in_bounds(x, y) ==> post.pix(x, y) == over_paint(pre, paths, cols, x, y)
}

/// Every color in the sequence is an opaque random-policy color.
pub open spec fn opaque_all(cs: Seq<Color>) -> bool {
    forall|i: int| 0 <= i < cs.len() ==> rgb_opaque(#[trigger] cs[i])
}

/// Extract the one stroke color from a single-stroke painting.
pub proof fn choose_stroke(pre: Canvas, post: Canvas, paths: Seq<Seq<(int, int)>>) -> (col: Color)
    requires
        exists|cs: Seq<Color>| opaque_all(cs) && #[trigger] painted(pre, post, paths, cs),
        paths.len() == 1,
    ensures
        rgb_opaque(col),
        painted(pre, post, seq![paths[0]], seq![col]),
{
    let cs = choose|cs: Seq<Color>| opaque_all(cs) && #[trigger] painted(pre, post, paths, cs);
    let col = cs[0];
    assert(rgb_opaque(cs[0]));
    assert(cs =~= seq![col]);
    assert(paths =~= seq![paths[0]]);
    col
}

/// Painting nothing changes nothing.
pub proof fn lemma_painted_empty(pre: Canvas)
    requires
        pre.wf(),
    ensures
        painted(pre, pre, Seq::empty(), Seq::empty()),
{
}

/// One more stroke on an already painted canvas extends the stroke list.
pub proof fn lemma_painted_step(pre: Canvas, mid: Canvas, post: Canvas, paths: Seq<Seq<(int, int)>>, cols: Seq<Color>, path: Seq<(int, int)>, col: Color)
    requires
        painted(pre, mid, paths, cols),
        painted(mid, post, seq![path], seq![col]),
    ensures
        painted(pre, post, paths.push(path), cols.push(col)),
{
    assert forall|x: int, y: int| pre.in_bounds(x, y)
        implies post.pix(x, y) == over_paint(pre, paths.push(path), cols.push(col), x, y) by {
        assert(paths.push(path).drop_last() =~= paths);
        assert(cols.push(col).drop_last() =~= cols);
        assert(seq![path].drop_last() =~= Seq::<Seq<(int, int)>>::empty());
        assert(seq![col].drop_last() =~= Seq::<Color>::empty());
        assert(mid.in_bounds(x, y));
        assert(post.pix(x, y) == over_paint(mid, seq![path], seq![col], x, y));
        assert(over_paint(mid, Seq::empty(), Seq::empty(), x, y) == mid.pix(x, y));
        assert(mid.pix(x, y) == over_paint(pre, paths, cols, x, y));
        assert(paths.push(path).last() == path);
        if path.contains((x, y)) {
            assert(over_paint(pre, paths.push(path), cols.push(col), x, y) == col);
            assert(over_paint(mid, seq![path], seq![col], x, y) == col);
        } else {
            assert(over_paint(pre, paths.push(path), cols.push(col), x, y)
                == over_paint(pre, paths, cols, x, y));
            assert(over_paint(mid, seq![path], seq![col], x, y) == mid.pix(x, y));
        }
    }
}

/// Whatever a painting leaves at a pixel is either the old color there or
/// one of the stroke colors.
pub proof fn lemma_over_paint_cases(pre: Canvas, paths: Seq<Seq<(int, int)>>, cols: Seq<Color>, x: int, y: int)
    requires
        cols.len() == paths.len(),
    ensures
        over_paint(pre, paths, cols, x, y) == pre.pix(x, y)
            || cols.contains(over_paint(pre, paths, cols, x, y)),
    decreases paths.len(),
{
    if paths.len() == 0 {
    } else if paths.last().contains((x, y)) {
    } else {
        lemma_over_paint_cases(pre, paths.drop_last(), cols.drop_last(), x, y);
        if cols.drop_last().contains(over_paint(pre, paths, cols, x, y)) {
            let i = choose|i: int| 0 <= i < cols.drop_last().len()
                && cols.drop_last()[i] == over_paint(pre, paths, cols, x, y);
            assert(cols[i] == over_paint(pre, paths, cols, x, y));
        }
    }
}

/// A painting whose stroke colors are all opaque leaves every pixel
/// either as it was or holding an opaque color.
pub proof fn lemma_painted_opaque(pre: Canvas, post: Canvas, paths: Seq<Seq<(int, int)>>, cols: Seq<Color>)
    requires
        painted(pre, post, paths, cols),
        forall|i: int| 0 <= i < cols.len() ==> rgb_opaque(#[trigger] cols[i]),
    ensures
        forall|x: int, y: int| pre.in_bounds(x, y)
            ==> post.pix(x, y) == pre.pix(x, y) || rgb_opaque(#[trigger] post.pix(x, y)),
{
    assert forall|x: int, y: int| pre.in_bounds(x, y)
        implies post.pix(x, y) == pre.pix(x, y) || rgb_opaque(post.pix(x, y)) by {
        lemma_over_paint_cases(pre, paths, cols, x, y);
    }
}

/// What any draw call guarantees: dimensions are kept, and every pixel
/// either keeps its old color or holds an opaque stroke color.
pub proof fn lemma_drawn_opaque(pre: Canvas, post: Canvas, paths: Seq<Seq<(int, int)>>)
    requires
        exists|cs: Seq<Color>| opaque_all(cs) && #[trigger] painted(pre, post, paths, cs),
    ensures
        post.wf(),
        post.w() == pre.w(),
        post.h() == pre.h(),
        forall|x: int, y: int| pre.in_bounds(x, y)
            ==> post.pix(x, y) == pre.pix(x, y) || rgb_opaque(#[trigger] post.pix(x, y)),
{
    let cs = choose|cs: Seq<Color>| opaque_all(cs) && #[trigger] painted(pre, post, paths, cs);
    lemma_painted_opaque(pre, post, paths, cs);
}

/// A pixel covered by some stroke of a draw call holds an opaque color
/// afterwards.
pub proof fn lemma_drawn_hit(pre: Canvas, post: Canvas, paths: Seq<Seq<(int, int)>>, x: int, y: int)
    requires
        exists|cs: Seq<Color>| opaque_all(cs) && #[trigger] painted(pre, post, paths, cs),
        pre.in_bounds(x, y),
        exists|i: int| 0 <= i < paths.len() && (#[trigger] paths[i]).contains((x, y)),
    ensures
        rgb_opaque(post.pix(x, y)),
{
    let cs = choose|cs: Seq<Color>| opaque_all(cs) && #[trigger] painted(pre, post, paths, cs);
    lemma_painted_hit(pre, post, paths, cs, x, y);
}

/// A pixel covered by some stroke of an all-opaque painting holds an
/// opaque color afterwards.
pub proof fn lemma_painted_hit(pre: Canvas, post: Canvas, paths: Seq<Seq<(int, int)>>, cols: Seq<Color>, x: int, y: int)
    requires
        painted(pre, post, paths, cols),
        forall|i: int| 0 <= i < cols.len() ==> rgb_opaque(#[trigger] cols[i]),
        pre.in_bounds(x, y),
        exists|i: int| 0 <= i < paths.len() && (#[trigger] paths[i]).contains((x, y)),
    ensures
        rgb_opaque(post.pix(x, y)),
{
    lemma_over_paint_hit(pre, paths, cols, x, y);
}

/// Paint every listed pixel in one color, clipping to the canvas bounds.
pub fn plot_points(canvas: &mut Canvas, pts: &Vec<Point>, color: Color)
    requires
        old(canvas).wf(),
    ensures
        painted(*old(canvas), *final(canvas), seq![locs(pts@)], seq![color]),
{
    let ghost pre = *canvas;
    let n: usize = pts.len();
    let mut i: usize = 0;
    while i < n
        invariant
            n == pts@.len(),
            i <= n,
            canvas.wf(),
            canvas.w() == pre.w(),
            canvas.h() == pre.h(),
            pre.wf(),
            forall|x: int, y: int| pre.in_bounds(x, y)
                ==> #[trigger] canvas.pix(x, y) == if locs(pts@).take(i as int).contains((x, y)) {
                        color
                    } else {
                        pre.pix(x, y)
                    },
        decreases n - i,
    {
        let p = pts[i];
        let ghost before = *canvas;
        canvas.display(p.x, p.y, color);
        proof {
            assert(locs(pts@).take(i + 1) =~= locs(pts@).take(i as int).push(p.loc()));
            assert forall|x: int, y: int| pre.in_bounds(x, y)
                implies #[trigger] canvas.pix(x, y) == if locs(pts@).take(i + 1).contains((x, y)) {
                    color
                } else {
                    pre.pix(x, y)
                } by {
                let q = (x, y);
                assert(locs(pts@).take(i + 1)[i as int] == p.loc());
                assert(locs(pts@).take(i + 1).contains(p.loc()));
                if locs(pts@).take(i + 1).contains(q) {
                    if q == p.loc() {
                        if before.in_bounds(x, y) {
                            assert(canvas.pix(x, y) == color);
                        } else {
                            assert(false);
                        }
                    } else {
                        assert(locs(pts@).take(i as int).contains(q));
                        assert(before.pix(x, y) == color);
                    }
                } else {
                    assert(!locs(pts@).take(i as int).contains(q));
                    assert(q != p.loc());
                }
            }
        }
        i = i + 1;
    }
    proof {
        assert(locs(pts@).take(n as int) =~= locs(pts@));
        assert forall|x: int, y: int| pre.in_bounds(x, y)
            implies #[trigger] canvas.pix(x, y)
                == over_paint(pre, seq![locs(pts@)], seq![color], x, y) by {
            assert(seq![locs(pts@)].drop_last() =~= Seq::<Seq<(int, int)>>::empty());
            assert(seq![color].drop_last() =~= Seq::<Color>::empty());
            assert(over_paint(pre, Seq::empty(), Seq::empty(), x, y) == pre.pix(x, y));
            assert(seq![locs(pts@)].last() == locs(pts@));
            if locs(pts@).contains((x, y)) {
                assert(over_paint(pre, seq![locs(pts@)], seq![color], x, y) == color);
            } else {
                assert(over_paint(pre, seq![locs(pts@)], seq![color], x, y) == pre.pix(x, y));
            }
        }
    }
}

/// Helper for `lemma_painted_hit`, by induction over the stroke list.
proof fn lemma_over_paint_hit(pre: Canvas, paths: Seq<Seq<(int, int)>>, cols: Seq<Color>, x: int, y: int)
    requires
        cols.len() == paths.len(),
        exists|i: int| 0 <= i < paths.len() && (#[trigger] paths[i]).contains((x, y)),
    ensures
        cols.contains(over_paint(pre, paths, cols, x, y)),
    decreases paths.len(),
{
    let i = choose|i: int| 0 <= i < paths.len() && (#[trigger] paths[i]).contains((x, y));
    if paths.last().contains((x, y)) {
        assert(cols[cols.len() - 1] == over_paint(pre, paths, cols, x, y));
    } else {
        assert(i < paths.len() - 1);
        assert(paths.drop_last()[i] == paths[i]);
        lemma_over_paint_hit(pre, paths.drop_last(), cols.drop_last(), x, y);
        let j = choose|j: int| 0 <= j < cols.drop_last().len()
            && cols.drop_last()[j] == over_paint(pre, paths.drop_last(), cols.drop_last(), x, y);
        assert(cols[j] == over_paint(pre, paths, cols, x, y));
    }
}

} // verus!
