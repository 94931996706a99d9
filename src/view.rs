use vstd::prelude::*;
use vstd::arithmetic::div_mod::{lemma_fundamental_div_mod, lemma_fundamental_div_mod_converse};
use vstd::arithmetic::power2::{pow2, lemma_pow2_unfold};
use crate::coord::ScreenCoord;

verus! {

/// Iterations added to the budget on each zoom step.
pub const ITER_STEP: u32 = 10;

/// The integer side of a view: the frame's size in pixels, the iteration
/// budget, and how many times the view has been zoomed in. The scale of the
/// view (pixels per unit of the complex plane) is its initial scale times
/// `2^zoom`.
#[derive(Copy, Clone, PartialEq, Eq, Debug, Structural)]
pub struct Viewport {
    pub width: i32,
    pub height: i32,
    pub max_iter: u32,
    pub zoom: u32,
}

/// The pixel at position `i` of a frame `h` pixels tall, in raster order:
/// column by column, and top to bottom within a column.
pub open spec fn frame_entry(i: int, h: int) -> ScreenCoord {
    ScreenCoord { x: (i / h) as i32, y: (i % h) as i32 }
}

/// Position of pixel `(x, y)` in the raster order of a frame `h` pixels tall.
pub open spec fn raster_index(x: int, y: int, h: int) -> int {
    x * h + y
}

/// Every pixel of a `w` by `h` frame, in raster order.
pub open spec fn frame_seq(w: int, h: int) -> Seq<ScreenCoord> {
    Seq::new((w * h) as nat, |i: int| frame_entry(i, h))
}

impl Viewport {
    /// A view is usable when the frame has pixels and the budget is not empty.
    pub open spec fn wf(&self) -> bool {
        &&& self.width > 0
        &&& self.height > 0
        &&& self.max_iter > 0
    }

    /// The view's scale as a multiple of the initial scale.
    pub open spec fn scale_factor(&self) -> nat {
        pow2(self.zoom as nat)
    }

    /// Offset of `coord` from the middle of the frame, with the vertical axis
    /// pointing up.
    pub open spec fn offset_of(&self, coord: ScreenCoord) -> (int, int) {
        (coord.x - self.width / 2, self.height / 2 - coord.y)
    }

    pub fn new(width: i32, height: i32, max_iter: u32) -> (r: Viewport)
        requires
            width > 0,
            height > 0,
            max_iter > 0,
        ensures
            r.wf(),
            r == (Viewport { width, height, max_iter, zoom: 0 }),
    {
        Viewport { width, height, max_iter, zoom: 0 }
    }

    /// Offset of `coord` from the middle of the frame in pixels, the vertical
    /// axis pointing up. Dividing it by the scale and adding the view's center
    /// gives the point of the plane that the pixel shows.
    pub fn pixel_offset(&self, coord: ScreenCoord) -> (r: (i64, i64))
        requires
            self.wf(),
        ensures
            (r.0 as int, r.1 as int) == self.offset_of(coord),
    {
        let dx = coord.x as i64 - (self.width / 2) as i64;
        let dy = (self.height / 2) as i64 - coord.y as i64;
        (dx, dy)
    }

    /// Every pixel of the frame, in raster order.
    pub fn frame_coords(&self) -> (r: Vec<ScreenCoord>)
        requires
            self.wf(),
        ensures
            r@ == frame_seq(self.width as int, self.height as int),
    {
        let w = self.width;
        let h = self.height;
        let mut r: Vec<ScreenCoord> = Vec::new();
        let mut x: i32 = 0;
        while x < w
            invariant
                w > 0,
                h > 0,
                0 <= x <= w,
                r@.len() == x * h,
                forall|i: int| 0 <= i < r@.len() ==> r@[i] == frame_entry(i, h as int),
            decreases w - x,
        {
            let mut y: i32 = 0;
            while y < h
                invariant
                    w > 0,
                    h > 0,
                    0 <= x < w,
                    0 <= y <= h,
                    r@.len() == x * h + y,
                    forall|i: int| 0 <= i < r@.len() ==> r@[i] == frame_entry(i, h as int),
                decreases h - y,
            {
                proof {
                    lemma_fundamental_div_mod_converse(x * h + y, h as int, x as int, y as int);
                }
                r.push(ScreenCoord::new(x, y));
                y = y + 1;
            }
            assert(x * h + h == (x + 1) * h) by (nonlinear_arith);
            x = x + 1;
        }
        assert(r@ =~= frame_seq(w as int, h as int));
        r
    }

    /// Zooms in one step: the scale doubles and the budget grows by
    /// `ITER_STEP` iterations.
    pub fn zoom_in(&mut self)
        requires
            old(self).wf(),
            old(self).max_iter <= u32::MAX - ITER_STEP,
            old(self).zoom < u32::MAX,
        ensures
            final(self).wf(),
            *final(self) == (Viewport {
                max_iter: (old(self).max_iter + ITER_STEP) as u32,
                zoom: (old(self).zoom + 1) as u32,
                ..*old(self)
            }),
    {
        self.max_iter = self.max_iter + ITER_STEP;
        self.zoom = self.zoom + 1;
    }
}

/// The pixel in the middle of the frame has offset zero: in a view centered
/// on the origin it shows the origin itself.
pub proof fn lemma_middle_pixel_offset(v: Viewport)
    requires
        v.wf(),
    ensures
        v.offset_of(ScreenCoord { x: (v.width / 2) as i32, y: (v.height / 2) as i32 }) == (0int, 0int),
{
}

/// One zoom step doubles the scale exactly and adds exactly `ITER_STEP` to the
/// budget, whichever pixel the view is recentered on.
pub proof fn lemma_zoom_policy(before: Viewport, after: Viewport)
    requires
        before.wf(),
        before.max_iter <= u32::MAX - ITER_STEP,
        before.zoom < u32::MAX,
        after == (Viewport {
            max_iter: (before.max_iter + ITER_STEP) as u32,
            zoom: (before.zoom + 1) as u32,
            ..before
        }),
    ensures
        after.wf(),
        after.scale_factor() == 2 * before.scale_factor(),
        after.max_iter == before.max_iter + ITER_STEP,
        after.width == before.width,
        after.height == before.height,
{
    lemma_pow2_unfold(after.zoom as nat);
}

proof fn lemma_frame_position(w: int, h: int, x: int, y: int)
    requires
        0 < w <= i32::MAX,
        0 < h <= i32::MAX,
        0 <= x < w,
        0 <= y < h,
    ensures
        0 <= x * h + y < w * h,
        frame_seq(w, h)[x * h + y] == (ScreenCoord { x: x as i32, y: y as i32 }),
{
    assert(0 <= x * h + y < w * h) by (nonlinear_arith)
        requires
            0 <= x < w,
            0 <= y < h,
    ;
    lemma_fundamental_div_mod_converse(x * h + y, h, x, y);
}

/// A frame lists every pixel of the `w` by `h` grid exactly once: it has
/// `w * h` entries, each inside the grid, no two alike, and pixel `(x, y)`
/// stands at position `raster_index(x, y, h)`.
pub proof fn lemma_frame_complete(w: int, h: int)
    requires
        0 < w <= i32::MAX,
        0 < h <= i32::MAX,
    ensures
        frame_seq(w, h).len() == w * h,
        forall|i: int|
            0 <= i < w * h ==> 0 <= #[trigger] frame_seq(w, h)[i].x < w && 0 <= frame_seq(w, h)[i].y
                < h,
        forall|x: int, y: int|
            0 <= x < w && 0 <= y < h ==> 0 <= #[trigger] raster_index(x, y, h) < w * h && frame_seq(
                w,
                h,
            )[raster_index(x, y, h)] == (ScreenCoord { x: x as i32, y: y as i32 }),
        forall|i: int, j: int|
            0 <= i < w * h && 0 <= j < w * h && i != j ==> #[trigger] frame_seq(w, h)[i]
                != #[trigger] frame_seq(w, h)[j],
{
    assert(w * h > 0) by (nonlinear_arith)
        requires
            w > 0,
            h > 0,
    ;
    assert forall|i: int| 0 <= i < w * h implies 0 <= #[trigger] frame_seq(w, h)[i].x < w
        && 0 <= frame_seq(w, h)[i].y < h by {
        lemma_fundamental_div_mod(i, h);
        let q = i / h;
        assert(0 <= q < w) by (nonlinear_arith)
            requires
                i == h * q + i % h,
                0 <= i % h < h,
                0 <= i < w * h,
        ;
    }
    assert forall|x: int, y: int| 0 <= x < w && 0 <= y < h implies 0 <= #[trigger] raster_index(
        x,
        y,
        h,
    ) < w * h && frame_seq(w, h)[raster_index(x, y, h)] == (ScreenCoord {
        x: x as i32,
        y: y as i32,
    }) by {
        lemma_frame_position(w, h, x, y);
    }
    assert forall|i: int, j: int| 0 <= i < w * h && 0 <= j < w * h && i != j implies
        #[trigger] frame_seq(w, h)[i] != #[trigger] frame_seq(w, h)[j] by {
        lemma_fundamental_div_mod(i, h);
        lemma_fundamental_div_mod(j, h);
        let qi = i / h;
        let qj = j / h;
        assert(0 <= qi < w && 0 <= qj < w) by (nonlinear_arith)
            requires
                i == h * qi + i % h,
                j == h * qj + j % h,
                0 <= i % h < h,
                0 <= j % h < h,
                0 <= i < w * h,
                0 <= j < w * h,
        ;
        if qi == qj && i % h == j % h {
            assert(i == j);
        }
    }
}

} // verus!
