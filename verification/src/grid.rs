//! Grayscale pixel grids and the pixel-level operations of the pipeline:
//! thresholding, inversion and cropping.

use vstd::prelude::*;

use crate::rect::RegionRect;
use crate::ReadError;

verus! {

/// A 2-D grid of 8-bit grayscale intensities, row-major.
#[derive(Debug)]
pub struct PixelGrid {
    pub width: usize,
    pub height: usize,
    pub data: Vec<u8>,
}

/// A flat row-major index decomposes into the coordinate it addresses.
pub proof fn lemma_row_major_decompose(w: int, x: int, y: int)
    requires
        0 <= x < w,
        0 <= y,
    ensures
        (y * w + x) % w == x,
        (y * w + x) / w == y,
{
    vstd::arithmetic::div_mod::lemma_fundamental_div_mod_converse(y * w + x, w, y, x);
}

/// Row-major index arithmetic: a coordinate inside a grid addresses a cell
/// inside its backing vector.
pub proof fn lemma_row_major_index(w: int, h: int, x: int, y: int)
    requires
        0 <= x < w,
        0 <= y < h,
    ensures
        0 <= y * w + x < w * h,
{
    assert(0 <= y * w + x < w * h) by (nonlinear_arith)
        requires
            0 <= x < w,
            0 <= y < h,
    ;
}

/// A smaller pair of dimensions spans no more cells than a larger one.
pub proof fn lemma_area_monotone(w1: int, h1: int, w2: int, h2: int)
    requires
        0 <= w1 <= w2,
        0 <= h1 <= h2,
    ensures
        w1 * h1 <= w2 * h2,
{
    assert(w1 * h1 <= w2 * h2) by (nonlinear_arith)
        requires
            0 <= w1 <= w2,
            0 <= h1 <= h2,
    ;
}

impl PixelGrid {
    /// The backing vector holds exactly one intensity per coordinate.
    pub open spec fn wf(self) -> bool {
        &&& self.data@.len() == self.width * self.height
        &&& self.width * self.height <= usize::MAX
    }

    /// The intensity at a coordinate.
    pub open spec fn px(self, x: int, y: int) -> u8 {
        self.data@[y * self.width + x]
    }

    pub open spec fn in_bounds(self, x: int, y: int) -> bool {
        0 <= x < self.width && 0 <= y < self.height
    }

    /// A grid of the given dimensions with every intensity set to `value`.
    pub fn new_filled(width: usize, height: usize, value: u8) -> (g: PixelGrid)
        requires
            width * height <= usize::MAX,
        ensures
            g.wf(),
            g.width == width,
            g.height == height,
            forall|x: int, y: int| g.in_bounds(x, y) ==> g.px(x, y) == value,
    {
        let n = width * height;
        let mut data: Vec<u8> = Vec::new();
        while data.len() < n
            invariant
                data@.len() <= n,
                n == width * height,
                forall|i: int| 0 <= i < data@.len() ==> data@[i] == value,
            decreases n - data@.len(),
        {
            data.push(value);
        }
        let g = PixelGrid { width, height, data };
        proof {
            assert forall|x: int, y: int| g.in_bounds(x, y) implies g.px(x, y) == value by {
                lemma_row_major_index(width as int, height as int, x, y);
            }
        }
        g
    }

    /// The intensity at `(x, y)`.
    pub fn get_px(&self, x: usize, y: usize) -> (v: u8)
        requires
            self.wf(),
            self.in_bounds(x as int, y as int),
        ensures
            v == self.px(x as int, y as int),
    {
        proof {
            lemma_row_major_index(self.width as int, self.height as int, x as int, y as int);
        }
        self.data[y * self.width + x]
    }

    /// Replaces the intensity at `(x, y)`, leaving every other cell as it
    /// was.
    pub fn set_px(&mut self, x: usize, y: usize, value: u8)
        requires
            old(self).wf(),
            old(self).in_bounds(x as int, y as int),
        ensures
            final(self).wf(),
            final(self).width == old(self).width,
            final(self).height == old(self).height,
            final(self).px(x as int, y as int) == value,
            forall|xx: int, yy: int|
                final(self).in_bounds(xx, yy) && (xx != x || yy != y) ==> final(self).px(xx, yy)
                    == old(self).px(xx, yy),
    {
        proof {
            lemma_row_major_index(self.width as int, self.height as int, x as int, y as int);
        }
        let idx = y * self.width + x;
        self.data[idx] = value;
        proof {
            assert forall|xx: int, yy: int|
                self.in_bounds(xx, yy) && (xx != x || yy != y) implies self.px(xx, yy) == old(
                self,
            ).px(xx, yy) by {
                lemma_row_major_index(self.width as int, self.height as int, xx, yy);
                if yy * self.width + xx == y * self.width + x {
                    assert(xx == x && yy == y) by (nonlinear_arith)
                        requires
                            yy * self.width + xx == y * self.width + x,
                            0 <= xx < self.width,
                            0 <= x < self.width,
                            0 <= yy,
                            0 <= y,
                    ;
                }
            }
        }
    }
}

/// Binary threshold: intensities at or above the cutoff become white (255),
/// the rest black (0).
pub fn threshold(grid: &PixelGrid, cutoff: u8) -> (out: PixelGrid)
    requires
        grid.wf(),
    ensures
        out.wf(),
        out.width == grid.width,
        out.height == grid.height,
        forall|x: int, y: int|
            out.in_bounds(x, y) ==> out.px(x, y) == (if grid.px(x, y) >= cutoff {
                255u8
            } else {
                0u8
            }),
{
    let mut data: Vec<u8> = Vec::new();
    let n = grid.data.len();
    let mut i: usize = 0;
    while i < n
        invariant
            i == data@.len() <= n,
            n == grid.data@.len(),
            forall|j: int|
                0 <= j < i ==> data@[j] == (if grid.data@[j] >= cutoff {
                    255u8
                } else {
                    0u8
                }),
        decreases n - i,
    {
        let v: u8 = if grid.data[i] >= cutoff {
            255
        } else {
            0
        };
        data.push(v);
        i = i + 1;
    }
    let out = PixelGrid { width: grid.width, height: grid.height, data };
    proof {
        assert forall|x: int, y: int| out.in_bounds(x, y) implies out.px(x, y) == (if grid.px(
            x,
            y,
        ) >= cutoff {
            255u8
        } else {
            0u8
        }) by {
            lemma_row_major_index(grid.width as int, grid.height as int, x, y);
        }
    }
    out
}

/// Photometric inversion: every intensity `v` becomes `255 - v`.
pub fn invert(grid: &PixelGrid) -> (out: PixelGrid)
    requires
        grid.wf(),
    ensures
        out.wf(),
        out.width == grid.width,
        out.height == grid.height,
        forall|x: int, y: int|
            out.in_bounds(x, y) ==> out.px(x, y) == 255 - grid.px(x, y),
{
    let mut data: Vec<u8> = Vec::new();
    let n = grid.data.len();
    let mut i: usize = 0;
    while i < n
        invariant
            i == data@.len() <= n,
            n == grid.data@.len(),
            forall|j: int| 0 <= j < i ==> data@[j] == 255 - grid.data@[j],
        decreases n - i,
    {
        let v: u8 = 255 - grid.data[i];
        data.push(v);
        i = i + 1;
    }
    let out = PixelGrid { width: grid.width, height: grid.height, data };
    proof {
        assert forall|x: int, y: int| out.in_bounds(x, y) implies out.px(x, y) == 255 - grid.px(
            x,
            y,
        ) by {
            lemma_row_major_index(grid.width as int, grid.height as int, x, y);
        }
    }
    out
}

/// What a successful crop returns: the sub-image of `grid` under `rect`,
/// pinned cell by cell.
pub open spec fn crop_post(grid: PixelGrid, rect: RegionRect, sub: PixelGrid) -> bool {
    &&& sub.wf()
    &&& sub.width == rect.width
    &&& sub.height == rect.height
    &&& forall|x: int, y: int|
        sub.in_bounds(x, y) ==> sub.px(x, y) == grid.px(rect.x + x, rect.y + y)
}

/// Extracts the sub-image of `grid` under `rect`.
///
/// Fails with `RegionOutOfBounds` exactly when the containment invariant
/// does not hold, and otherwise returns the sub-image whose every cell is
/// pinned by `crop_post`.
pub fn crop(grid: &PixelGrid, rect: &RegionRect) -> (r: Result<PixelGrid, ReadError>)
    requires
        grid.wf(),
    ensures
        match r {
            Ok(sub) => rect.valid_for(grid.width as int, grid.height as int) && crop_post(
                *grid,
                *rect,
                sub,
            ),
            Err(e) => !rect.valid_for(grid.width as int, grid.height as int) && e
                == ReadError::RegionOutOfBounds,
        },
{
    if !rect.is_valid_for(grid.width, grid.height) {
        return Err(ReadError::RegionOutOfBounds);
    }
    let rw = rect.width;
    let rh = rect.height;
    proof {
        lemma_area_monotone(rw as int, rh as int, grid.width as int, grid.height as int);
    }
    let mut data: Vec<u8> = Vec::new();
    let mut y: usize = 0;
    while y < rh
        invariant
            grid.wf(),
            rect.valid_for(grid.width as int, grid.height as int),
            rw == rect.width,
            rh == rect.height,
            y <= rh,
            data@.len() == y * rw,
            rw * rh <= usize::MAX,
            forall|i: int|
                0 <= i < data@.len() ==> data@[i] == grid.px(
                    rect.x + (i % (rw as int)),
                    rect.y + (i / (rw as int)),
                ),
        decreases rh - y,
    {
        let mut x: usize = 0;
        proof {
            assert(y * rw + rw <= rh * rw && rh * rw == rw * rh) by (nonlinear_arith)
                requires
                    y + 1 <= rh,
                    0 <= rw,
            ;
        }
        while x < rw
            invariant
                grid.wf(),
                rect.valid_for(grid.width as int, grid.height as int),
                rw == rect.width,
                rh == rect.height,
                y < rh,
                x <= rw,
                y * rw + rw <= usize::MAX,
                data@.len() == y * rw + x,
                forall|i: int|
                    0 <= i < data@.len() ==> data@[i] == grid.px(
                        rect.x + (i % (rw as int)),
                        rect.y + (i / (rw as int)),
                    ),
            decreases rw - x,
        {
            let v = grid.get_px(rect.x + x, rect.y + y);
            data.push(v);
            proof {
                lemma_row_major_decompose(rw as int, x as int, y as int);
            }
            x = x + 1;
        }
        y = y + 1;
        proof {
            assert(y * rw == (y - 1) * rw + rw) by (nonlinear_arith);
        }
    }
    let sub = PixelGrid { width: rw, height: rh, data };
    proof {
        assert(data@.len() == rh * rw && rh * rw == rw * rh) by (nonlinear_arith)
            requires
                data@.len() == rh * rw,
        ;
        assert forall|x: int, y: int| sub.in_bounds(x, y) implies sub.px(x, y) == grid.px(
            rect.x + x,
            rect.y + y,
        ) by {
            lemma_row_major_index(rw as int, rh as int, x, y);
            lemma_row_major_decompose(rw as int, x, y);
        }
    }
    Ok(sub)
}

/// Cropping is deterministic: two sub-images cut from the same grid by the
/// same rectangle are identical, byte for byte.
pub proof fn lemma_crop_deterministic(grid: PixelGrid, rect: RegionRect, a: PixelGrid, b: PixelGrid)
    requires
        rect.valid_for(grid.width as int, grid.height as int),
        crop_post(grid, rect, a),
        crop_post(grid, rect, b),
    ensures
        a.width == b.width,
        a.height == b.height,
        a.data@ == b.data@,
{
    assert forall|i: int| 0 <= i < a.data@.len() implies a.data@[i] == b.data@[i] by {
        let w = a.width as int;
        let h = a.height as int;
        let x = i % w;
        let y = i / w;
        vstd::arithmetic::div_mod::lemma_fundamental_div_mod(i, w);
        vstd::arithmetic::div_mod::lemma_mod_pos_bound(i, w);
        vstd::arithmetic::div_mod::lemma_div_pos_is_pos(i, w);
        if y >= h {
            vstd::arithmetic::mul::lemma_mul_inequality(h, y, w);
            assert(false);
        }
        assert(i == y * w + x);
        assert(a.px(x, y) == grid.px(rect.x + x, rect.y + y));
        assert(b.px(x, y) == grid.px(rect.x + x, rect.y + y));
    }
    assert(a.data@ =~= b.data@);
}

} // verus!
