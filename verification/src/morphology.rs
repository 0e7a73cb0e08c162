//! Binary morphology with a square structuring element: erosion and
//! dilation, from which opening and closing are composed.
//!
//! The structuring element is the square of side `2 * k + 1` centered on the
//! pixel, measured in the L-infinity norm.  Cells outside the grid count as
//! background, so erosion clears a band of width `k` along the borders.

use vstd::prelude::*;

use crate::grid::lemma_row_major_decompose;
use crate::grid::lemma_row_major_index;
use crate::grid::PixelGrid;

verus! {

/// What erosion leaves at a coordinate: white exactly when the whole
/// structuring element around it lies inside the grid and is white.
pub open spec fn erode_px(g: PixelGrid, x: int, y: int, k: int) -> u8 {
    if k <= x && x + k < g.width && k <= y && y + k < g.height && (forall|xx: int, yy: int|
        x - k <= xx <= x + k && y - k <= yy <= y + k ==> g.px(xx, yy) == 255) {
        255u8
    } else {
        0u8
    }
}

/// What dilation leaves at a coordinate: white exactly when some in-bounds
/// cell of the structuring element around it is white.
pub open spec fn dilate_px(g: PixelGrid, x: int, y: int, k: int) -> u8 {
    if exists|xx: int, yy: int|
        g.in_bounds(xx, yy) && x - k <= xx <= x + k && y - k <= yy <= y + k && g.px(xx, yy)
            == 255 {
        255u8
    } else {
        0u8
    }
}

/// Erosion of a grid without white cells leaves no white cell.
pub proof fn lemma_erode_of_empty(g: PixelGrid, x: int, y: int, k: int)
    requires
        0 <= k,
        forall|xx: int, yy: int| g.in_bounds(xx, yy) ==> #[trigger] g.px(xx, yy) != 255,
    ensures
        erode_px(g, x, y, k) != 255,
{
    if erode_px(g, x, y, k) == 255 {
        assert(g.in_bounds(x, y));
        assert(g.px(x, y) == 255);
        assert(false);
    }
}

/// Dilation of a grid without white cells leaves no white cell.
pub proof fn lemma_dilate_of_empty(g: PixelGrid, x: int, y: int, k: int)
    requires
        0 <= k,
        forall|xx: int, yy: int| g.in_bounds(xx, yy) ==> #[trigger] g.px(xx, yy) != 255,
    ensures
        dilate_px(g, x, y, k) != 255,
{
    if dilate_px(g, x, y, k) == 255 {
        let (xx, yy) = choose|xx: int, yy: int|
            g.in_bounds(xx, yy) && x - k <= xx <= x + k && y - k <= yy <= y + k && g.px(xx, yy)
                == 255;
        assert(g.px(xx, yy) != 255);
        assert(false);
    }
}

/// Whether every cell of the rectangle `[x0, x1] x [y0, y1]` is white.
fn window_all_white(g: &PixelGrid, x0: usize, x1: usize, y0: usize, y1: usize) -> (r: bool)
    requires
        g.wf(),
        x0 <= x1 < g.width,
        y0 <= y1 < g.height,
    ensures
        r <==> forall|xx: int, yy: int|
            x0 <= xx <= x1 && y0 <= yy <= y1 ==> g.px(xx, yy) == 255,
{
    let mut yy = y0;
    while yy <= y1
        invariant
            g.wf(),
            x0 <= x1 < g.width,
            y0 <= y1 < g.height,
            y0 <= yy <= y1 + 1,
            forall|xx: int, yi: int| x0 <= xx <= x1 && y0 <= yi < yy ==> g.px(xx, yi) == 255,
        decreases y1 + 1 - yy,
    {
        let mut xx = x0;
        while xx <= x1
            invariant
                g.wf(),
                x0 <= x1 < g.width,
                y0 <= y1 < g.height,
                y0 <= yy <= y1,
                x0 <= xx <= x1 + 1,
                forall|xi: int, yi: int| x0 <= xi <= x1 && y0 <= yi < yy ==> g.px(xi, yi) == 255,
                forall|xi: int| x0 <= xi < xx ==> g.px(xi, yy as int) == 255,
            decreases x1 + 1 - xx,
        {
            if g.get_px(xx, yy) != 255 {
                return false;
            }
            xx = xx + 1;
        }
        yy = yy + 1;
    }
    true
}

/// Whether some cell of the rectangle `[x0, x1] x [y0, y1]` is white.
fn window_any_white(g: &PixelGrid, x0: usize, x1: usize, y0: usize, y1: usize) -> (r: bool)
    requires
        g.wf(),
        x0 <= x1 < g.width,
        y0 <= y1 < g.height,
    ensures
        r <==> exists|xx: int, yy: int| x0 <= xx <= x1 && y0 <= yy <= y1 && g.px(xx, yy) == 255,
{
    let mut yy = y0;
    while yy <= y1
        invariant
            g.wf(),
            x0 <= x1 < g.width,
            y0 <= y1 < g.height,
            y0 <= yy <= y1 + 1,
            forall|xx: int, yi: int| x0 <= xx <= x1 && y0 <= yi < yy ==> g.px(xx, yi) != 255,
        decreases y1 + 1 - yy,
    {
        let mut xx = x0;
        while xx <= x1
            invariant
                g.wf(),
                x0 <= x1 < g.width,
                y0 <= y1 < g.height,
                y0 <= yy <= y1,
                x0 <= xx <= x1 + 1,
                forall|xi: int, yi: int| x0 <= xi <= x1 && y0 <= yi < yy ==> g.px(xi, yi) != 255,
                forall|xi: int| x0 <= xi < xx ==> g.px(xi, yy as int) != 255,
            decreases x1 + 1 - xx,
        {
            if g.get_px(xx, yy) == 255 {
                return true;
            }
            xx = xx + 1;
        }
        yy = yy + 1;
    }
    false
}

/// Morphological erosion by the square structuring element of radius `k`.
pub fn erode(g: &PixelGrid, k: usize) -> (out: PixelGrid)
    requires
        g.wf(),
    ensures
        out.wf(),
        out.width == g.width,
        out.height == g.height,
        forall|x: int, y: int| out.in_bounds(x, y) ==> out.px(x, y) == erode_px(*g, x, y, k as int),
{
    let w = g.width;
    let h = g.height;
    let mut data: Vec<u8> = Vec::new();
    let mut y: usize = 0;
    while y < h
        invariant
            g.wf(),
            w == g.width,
            h == g.height,
            y <= h,
            data@.len() == y * w,
            forall|i: int|
                0 <= i < data@.len() ==> data@[i] == erode_px(
                    *g,
                    i % (w as int),
                    i / (w as int),
                    k as int,
                ),
        decreases h - y,
    {
        proof {
            assert(y * w + w <= h * w && h * w == w * h) by (nonlinear_arith)
                requires
                    y + 1 <= h,
                    0 <= w,
            ;
        }
        let mut x: usize = 0;
        while x < w
            invariant
                g.wf(),
                w == g.width,
                h == g.height,
                y < h,
                x <= w,
                y * w + w <= usize::MAX,
                data@.len() == y * w + x,
                forall|i: int|
                    0 <= i < data@.len() ==> data@[i] == erode_px(
                        *g,
                        i % (w as int),
                        i / (w as int),
                        k as int,
                    ),
            decreases w - x,
        {
            let interior = x >= k && y >= k && w - 1 - x >= k && h - 1 - y >= k;
            let v: u8 = if interior && window_all_white(g, x - k, x + k, y - k, y + k) {
                255
            } else {
                0
            };
            data.push(v);
            proof {
                lemma_row_major_decompose(w as int, x as int, y as int);
            }
            x = x + 1;
        }
        y = y + 1;
        proof {
            assert(y * w == (y - 1) * w + w) by (nonlinear_arith);
        }
    }
    let out = PixelGrid { width: w, height: h, data };
    proof {
        assert(data@.len() == h * w && h * w == w * h) by (nonlinear_arith)
            requires
                data@.len() == h * w,
        ;
        assert forall|x: int, y: int| out.in_bounds(x, y) implies out.px(x, y) == erode_px(
            *g,
            x,
            y,
            k as int,
        ) by {
            lemma_row_major_index(w as int, h as int, x, y);
            lemma_row_major_decompose(w as int, x, y);
        }
    }
    out
}

/// Morphological dilation by the square structuring element of radius `k`.
pub fn dilate(g: &PixelGrid, k: usize) -> (out: PixelGrid)
    requires
        g.wf(),
    ensures
        out.wf(),
        out.width == g.width,
        out.height == g.height,
        forall|x: int, y: int|
            out.in_bounds(x, y) ==> out.px(x, y) == dilate_px(*g, x, y, k as int),
{
    let w = g.width;
    let h = g.height;
    let mut data: Vec<u8> = Vec::new();
    let mut y: usize = 0;
    while y < h
        invariant
            g.wf(),
            w == g.width,
            h == g.height,
            y <= h,
            data@.len() == y * w,
            forall|i: int|
                0 <= i < data@.len() ==> data@[i] == dilate_px(
                    *g,
                    i % (w as int),
                    i / (w as int),
                    k as int,
                ),
        decreases h - y,
    {
        proof {
            assert(y * w + w <= h * w && h * w == w * h) by (nonlinear_arith)
                requires
                    y + 1 <= h,
                    0 <= w,
            ;
        }
        let mut x: usize = 0;
        while x < w
            invariant
                g.wf(),
                w == g.width,
                h == g.height,
                y < h,
                x <= w,
                y * w + w <= usize::MAX,
                data@.len() == y * w + x,
                forall|i: int|
                    0 <= i < data@.len() ==> data@[i] == dilate_px(
                        *g,
                        i % (w as int),
                        i / (w as int),
                        k as int,
                    ),
            decreases w - x,
        {
            let x0 = if x >= k {
                x - k
            } else {
                0
            };
            let x1 = if w - 1 - x >= k {
                x + k
            } else {
                w - 1
            };
            let y0 = if y >= k {
                y - k
            } else {
                0
            };
            let y1 = if h - 1 - y >= k {
                y + k
            } else {
                h - 1
            };
            let v: u8 = if window_any_white(g, x0, x1, y0, y1) {
                255
            } else {
                0
            };
            data.push(v);
            proof {
                lemma_row_major_decompose(w as int, x as int, y as int);
            }
            x = x + 1;
        }
        y = y + 1;
        proof {
            assert(y * w == (y - 1) * w + w) by (nonlinear_arith);
        }
    }
    let out = PixelGrid { width: w, height: h, data };
    proof {
        assert(data@.len() == h * w && h * w == w * h) by (nonlinear_arith)
            requires
                data@.len() == h * w,
        ;
        assert forall|x: int, y: int| out.in_bounds(x, y) implies out.px(x, y) == dilate_px(
            *g,
            x,
            y,
            k as int,
        ) by {
            lemma_row_major_index(w as int, h as int, x, y);
            lemma_row_major_decompose(w as int, x, y);
        }
    }
    out
}

} // verus!
