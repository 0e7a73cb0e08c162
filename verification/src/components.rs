//! Connected foreground blobs of a binary grid and their bounding boxes.
//!
//! Blobs are maximal 8-connected sets of white (255) cells.  The scan visits
//! cells in row-major order and grows each newly met blob by flood fill, so
//! one bounding rectangle is produced per blob, in discovery order.

use vstd::prelude::*;

use crate::grid::lemma_row_major_decompose;
use crate::grid::lemma_row_major_index;
use crate::grid::PixelGrid;
use crate::rect::RegionRect;

verus! {

/// How many entries of a boolean sequence are set.
spec fn count_true(s: Seq<bool>) -> int
    decreases s.len(),
{
    if s.len() == 0 {
        0
    } else {
        count_true(s.drop_last()) + if s.last() {
            1int
        } else {
            0int
        }
    }
}

proof fn lemma_count_true_le_len(s: Seq<bool>)
    ensures
        0 <= count_true(s) <= s.len(),
    decreases s.len(),
{
    if s.len() != 0 {
        lemma_count_true_le_len(s.drop_last());
    }
}

/// Setting a clear entry raises the count by one.
proof fn lemma_count_true_update(s: Seq<bool>, i: int)
    requires
        0 <= i < s.len(),
        !s[i],
    ensures
        count_true(s.update(i, true)) == count_true(s) + 1,
    decreases s.len(),
{
    if i == s.len() - 1 {
        assert(s.update(i, true).drop_last() =~= s.drop_last());
    } else {
        assert(s.update(i, true).drop_last() =~= s.drop_last().update(i, true));
        lemma_count_true_update(s.drop_last(), i);
    }
}

/// A white cell at the flat index `i` of a well-formed grid.
spec fn flat_fg(g: PixelGrid, i: int) -> bool {
    0 <= i < g.width * g.height && g.data@[i] == 255
}

/// Marks the whole 8-connected blob around the seed `(sx, sy)` as visited
/// and returns its bounding rectangle, grown from the seed.
fn flood(g: &PixelGrid, visited: &mut Vec<bool>, sx: usize, sy: usize) -> (rect: RegionRect)
    requires
        g.wf(),
        sx < g.width,
        sy < g.height,
        old(visited)@.len() == g.width * g.height,
    ensures
        final(visited)@.len() == old(visited)@.len(),
        forall|i: int| 0 <= i < old(visited)@.len() && old(visited)@[i] ==> final(visited)@[i],
        rect.valid_for(g.width as int, g.height as int),
        rect.covers(sx as int, sy as int),
        forall|i: int|
            0 <= i < old(visited)@.len() && #[trigger] final(visited)@[i] && !old(visited)@[i]
                ==> rect.covers(i % (g.width as int), i / (g.width as int)),
{
    let w = g.width;
    let h = g.height;
    let ghost area = (w * h) as int;
    let mut stack: Vec<(usize, usize)> = Vec::new();
    stack.push((sx, sy));
    let mut minx = sx;
    let mut maxx = sx;
    let mut miny = sy;
    let mut maxy = sy;
    proof {
        lemma_count_true_le_len(visited@);
    }
    while stack.len() > 0
        invariant
            g.wf(),
            w == g.width,
            h == g.height,
            area == w * h,
            visited@.len() == area,
            minx <= maxx < w,
            miny <= maxy < h,
            forall|j: int|
                0 <= j < stack@.len() ==> (#[trigger] stack@[j]).0 < w && stack@[j].1 < h,
            forall|i: int| 0 <= i < area && old(visited)@[i] ==> visited@[i],
            count_true(visited@) <= area,
            minx <= sx <= maxx,
            miny <= sy <= maxy,
            forall|i: int|
                0 <= i < area && #[trigger] visited@[i] && !old(visited)@[i] ==> minx <= i % (
                w as int) <= maxx && miny <= i / (w as int) <= maxy,
        decreases 9 * (area - count_true(visited@)) + stack@.len(),
    {
        let top = stack.pop().unwrap();
        let cx = top.0;
        let cy = top.1;
        let ghost budget = 9 * (area - count_true(visited@)) + stack@.len();
        let x0 = if cx > 0 {
            cx - 1
        } else {
            0
        };
        let x1 = if cx + 1 < w {
            cx + 1
        } else {
            cx
        };
        let y0 = if cy > 0 {
            cy - 1
        } else {
            0
        };
        let y1 = if cy + 1 < h {
            cy + 1
        } else {
            cy
        };
        let mut ny = y0;
        while ny <= y1
            invariant
                g.wf(),
                w == g.width,
                h == g.height,
                area == w * h,
                visited@.len() == area,
                minx <= maxx < w,
                miny <= maxy < h,
                x0 <= x1 < w,
                y0 <= ny,
                y0 <= y1 < h,
                forall|j: int|
                    0 <= j < stack@.len() ==> (#[trigger] stack@[j]).0 < w && stack@[j].1 < h,
                forall|i: int| 0 <= i < area && old(visited)@[i] ==> visited@[i],
                count_true(visited@) <= area,
                minx <= sx <= maxx,
                miny <= sy <= maxy,
                forall|i: int|
                    0 <= i < area && #[trigger] visited@[i] && !old(visited)@[i] ==> minx <= i % (
                    w as int) <= maxx && miny <= i / (w as int) <= maxy,
                9 * (area - count_true(visited@)) + stack@.len() <= budget,
            decreases y1 + 1 - ny,
        {
            let mut nx = x0;
            while nx <= x1
                invariant
                    g.wf(),
                    w == g.width,
                    h == g.height,
                    area == w * h,
                    visited@.len() == area,
                    minx <= maxx < w,
                    miny <= maxy < h,
                    x0 <= nx,
                    x0 <= x1 < w,
                    ny <= y1 < h,
                    forall|j: int|
                        0 <= j < stack@.len() ==> (#[trigger] stack@[j]).0 < w && stack@[j].1 < h,
                    forall|i: int| 0 <= i < area && old(visited)@[i] ==> visited@[i],
                    count_true(visited@) <= area,
                    minx <= sx <= maxx,
                    miny <= sy <= maxy,
                    forall|i: int|
                        0 <= i < area && #[trigger] visited@[i] && !old(visited)@[i] ==> minx <= i % (
                        w as int) <= maxx && miny <= i / (w as int) <= maxy,
                    9 * (area - count_true(visited@)) + stack@.len() <= budget,
                decreases x1 + 1 - nx,
            {
                proof {
                    lemma_row_major_index(w as int, h as int, nx as int, ny as int);
                }
                let idx = ny * w + nx;
                if g.get_px(nx, ny) == 255 && !visited[idx] {
                    proof {
                        lemma_count_true_update(visited@, idx as int);
                        lemma_count_true_le_len(visited@.update(idx as int, true));
                        lemma_row_major_decompose(w as int, nx as int, ny as int);
                    }
                    visited[idx] = true;
                    stack.push((nx, ny));
                    if nx < minx {
                        minx = nx;
                    }
                    if nx > maxx {
                        maxx = nx;
                    }
                    if ny < miny {
                        miny = ny;
                    }
                    if ny > maxy {
                        maxy = ny;
                    }
                }
                nx = nx + 1;
            }
            ny = ny + 1;
        }
    }
    RegionRect { x: minx, y: miny, width: maxx - minx + 1, height: maxy - miny + 1 }
}

/// Bounding rectangles of the 8-connected white blobs of `g`, one per blob,
/// in row-major discovery order.
///
/// Every returned rectangle satisfies the containment invariant against `g`,
/// and the result is empty exactly when `g` holds no white cell.
pub fn components(g: &PixelGrid) -> (rects: Vec<RegionRect>)
    requires
        g.wf(),
    ensures
        forall|i: int|
            0 <= i < rects@.len() ==> (#[trigger] rects@[i]).valid_for(
                g.width as int,
                g.height as int,
            ),
        rects@.len() == 0 <==> forall|x: int, y: int|
            g.in_bounds(x, y) ==> #[trigger] g.px(x, y) != 255,
        forall|x: int, y: int|
            g.in_bounds(x, y) && #[trigger] g.px(x, y) == 255 ==> exists|j: int|
                0 <= j < rects@.len() && (#[trigger] rects@[j]).covers(x, y),
{
    let w = g.width;
    let h = g.height;
    let area = w * h;
    let mut visited: Vec<bool> = Vec::new();
    while visited.len() < area
        invariant
            visited@.len() <= area,
            forall|i: int| 0 <= i < visited@.len() ==> !visited@[i],
        decreases area - visited@.len(),
    {
        visited.push(false);
    }
    let mut rects: Vec<RegionRect> = Vec::new();
    let mut y: usize = 0;
    while y < h
        invariant
            g.wf(),
            w == g.width,
            h == g.height,
            area == w * h,
            y <= h,
            visited@.len() == area,
            forall|i: int| 0 <= i < y * w && g.data@[i] == 255 ==> visited@[i],
            forall|i: int| 0 <= i < area && #[trigger] visited@[i] ==> rects@.len() > 0,
            rects@.len() > 0 ==> exists|i: int| flat_fg(*g, i),
            forall|i: int|
                0 <= i < rects@.len() ==> (#[trigger] rects@[i]).valid_for(w as int, h as int),
            forall|i: int|
                0 <= i < area && #[trigger] visited@[i] ==> exists|j: int|
                    0 <= j < rects@.len() && (#[trigger] rects@[j]).covers(
                        i % (w as int),
                        i / (w as int),
                    ),
        decreases h - y,
    {
        proof {
            assert(y * w + w <= h * w && h * w == w * h) by (nonlinear_arith)
                requires
                    y + 1 <= h,
                    0 <= w,
            ;
        }
        let mut x: usize = 0;
        while x < w
            invariant
                g.wf(),
                w == g.width,
                h == g.height,
                area == w * h,
                y < h,
                x <= w,
                y * w + w <= area,
                visited@.len() == area,
                forall|i: int| 0 <= i < y * w + x && g.data@[i] == 255 ==> visited@[i],
                forall|i: int| 0 <= i < area && #[trigger] visited@[i] ==> rects@.len() > 0,
                rects@.len() > 0 ==> exists|i: int| flat_fg(*g, i),
                forall|i: int|
                    0 <= i < rects@.len() ==> (#[trigger] rects@[i]).valid_for(w as int, h as int),
                forall|i: int|
                    0 <= i < area && #[trigger] visited@[i] ==> exists|j: int|
                        0 <= j < rects@.len() && (#[trigger] rects@[j]).covers(
                            i % (w as int),
                            i / (w as int),
                        ),
            decreases w - x,
        {
            proof {
                lemma_row_major_index(w as int, h as int, x as int, y as int);
            }
            let seed = y * w + x;
            if g.get_px(x, y) == 255 && !visited[seed] {
                let ghost vis0 = visited@;
                let ghost rects0 = rects@;
                visited[seed] = true;
                let ghost vis1 = visited@;
                let rect = flood(g, &mut visited, x, y);
                rects.push(rect);
                proof {
                    assert(flat_fg(*g, seed as int));
                    lemma_row_major_decompose(w as int, x as int, y as int);
                    let wi = w as int;
                    assert forall|i: int|
                        0 <= i < area && #[trigger] visited@[i] implies exists|j: int|
                        0 <= j < rects@.len() && (#[trigger] rects@[j]).covers(
                            i % wi,
                            i / wi,
                        ) by {
                        if vis0[i] {
                            let j = choose|j: int|
                                0 <= j < rects0.len() && rects0[j].covers(i % wi, i / wi);
                            assert(rects@[j].covers(i % wi, i / wi));
                        } else if vis1[i] {
                            assert(i == seed);
                            assert(rects@[rects@.len() - 1].covers(i % wi, i / wi));
                        } else {
                            assert(rect.covers(i % wi, i / wi));
                            assert(rects@[rects@.len() - 1].covers(i % wi, i / wi));
                        }
                    }
                }
            }
            x = x + 1;
        }
        y = y + 1;
        proof {
            assert(y * w == (y - 1) * w + w) by (nonlinear_arith);
        }
    }
    proof {
        assert(h * w == w * h) by (nonlinear_arith);
        assert forall|x: int, y: int|
            g.in_bounds(x, y) && #[trigger] g.px(x, y) == 255 implies exists|j: int|
            0 <= j < rects@.len() && (#[trigger] rects@[j]).covers(x, y) by {
            lemma_row_major_index(w as int, h as int, x, y);
            lemma_row_major_decompose(w as int, x, y);
            let wi = w as int;
            let i = y * wi + x;
            assert(visited@[i]);
            let j = choose|j: int| 0 <= j < rects@.len() && rects@[j].covers(i % wi, i / wi);
            assert(rects@[j].covers(x, y));
        }
        if rects@.len() == 0 {
            assert forall|x: int, y: int| g.in_bounds(x, y) implies #[trigger] g.px(x, y)
                != 255 by {
                lemma_row_major_index(w as int, h as int, x, y);
                if g.px(x, y) == 255 {
                    assert(visited@[y * (w as int) + x]);
                }
            }
        } else {
            let i = choose|i: int| flat_fg(*g, i);
            let xi = i % (w as int);
            let yi = i / (w as int);
            vstd::arithmetic::div_mod::lemma_fundamental_div_mod(i, w as int);
            vstd::arithmetic::div_mod::lemma_mod_pos_bound(i, w as int);
            vstd::arithmetic::div_mod::lemma_div_pos_is_pos(i, w as int);
            assert(i == (w as int) * yi + xi);
            if yi >= h {
                vstd::arithmetic::mul::lemma_mul_inequality(h as int, yi, w as int);
                assert((h as int) * w <= yi * w) by (nonlinear_arith)
                    requires
                        h as int <= yi,
                        0 <= w,
                ;
                assert(yi * w == (w as int) * yi) by (nonlinear_arith);
                assert(false);
            }
            assert(yi * w + xi == (w as int) * yi + xi) by (nonlinear_arith);
            assert(g.in_bounds(xi, yi) && g.px(xi, yi) == 255);
        }
    }
    rects
}

} // verus!
