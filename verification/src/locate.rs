//! The fixed-ratio text-region locator.
//!
//! The name and description regions were measured once on a reference card
//! of known pixel dimensions; each corner offset and extent is kept as a
//! ratio of the reference card's width or height.  At run time the ratios
//! are multiplied by the actual card sub-image's dimensions, so the regions
//! scale uniformly with the card.  The strategy assumes the fixed physical
//! card layout; it is not robust to rotation or skew.

use vstd::prelude::*;

use crate::diag::Diagnostic;
use crate::grid::PixelGrid;
use crate::rect::RegionRect;
use crate::CardInfosTextChunks;
use crate::ReadError;

verus! {

/// Width of the reference card, in pixels.
pub const REF_W: usize = 732;

/// Height of the reference card, in pixels.
pub const REF_H: usize = 1061;

/// Reference measurements of the name region.
pub const NAME_X: usize = 136;

pub const NAME_Y: usize = 62;

pub const NAME_W: usize = 521;

pub const NAME_H: usize = 100;

/// Reference measurements of the description region.
pub const DESC_X: usize = 62;

pub const DESC_Y: usize = 696;

pub const DESC_W: usize = 591;

pub const DESC_H: usize = 167;

/// A reference measurement `num` out of `den`, scaled to an actual
/// dimension `dim`.
pub open spec fn scaled(dim: int, num: int, den: int) -> int {
    dim * num / den
}

/// The sum of two floors of same-denominator fractions is at most the floor
/// of the sum.
proof fn lemma_div_sum_le(x: int, y: int, d: int)
    requires
        0 <= x,
        0 <= y,
        0 < d,
    ensures
        x / d + y / d <= (x + y) / d,
{
    let q1 = x / d;
    let r1 = x % d;
    let q2 = y / d;
    let r2 = y % d;
    vstd::arithmetic::div_mod::lemma_fundamental_div_mod(x, d);
    vstd::arithmetic::div_mod::lemma_fundamental_div_mod(y, d);
    vstd::arithmetic::div_mod::lemma_mod_pos_bound(x, d);
    vstd::arithmetic::div_mod::lemma_mod_pos_bound(y, d);
    if r1 + r2 < d {
        assert(x + y == (q1 + q2) * d + (r1 + r2)) by (nonlinear_arith)
            requires
                x == d * q1 + r1,
                y == d * q2 + r2,
        ;
        vstd::arithmetic::div_mod::lemma_fundamental_div_mod_converse(
            x + y,
            d,
            q1 + q2,
            r1 + r2,
        );
    } else {
        assert(x + y == (q1 + q2 + 1) * d + (r1 + r2 - d)) by (nonlinear_arith)
            requires
                x == d * q1 + r1,
                y == d * q2 + r2,
        ;
        vstd::arithmetic::div_mod::lemma_fundamental_div_mod_converse(
            x + y,
            d,
            q1 + q2 + 1,
            r1 + r2 - d,
        );
    }
}

/// Two reference measurements that together fit in the reference dimension
/// scale to parts that together fit in the actual dimension.
proof fn lemma_scaled_parts_fit(dim: int, a: int, b: int, den: int)
    requires
        0 <= dim,
        0 <= a,
        0 <= b,
        a + b <= den,
        0 < den,
    ensures
        scaled(dim, a, den) + scaled(dim, b, den) <= dim,
{
    lemma_div_sum_le(dim * a, dim * b, den);
    assert(dim * a + dim * b == dim * (a + b)) by (nonlinear_arith);
    vstd::arithmetic::mul::lemma_mul_inequality(a + b, den, dim);
    assert(dim * (a + b) == (a + b) * dim && dim * den == den * dim) by (nonlinear_arith);
    vstd::arithmetic::div_mod::lemma_div_is_ordered(dim * (a + b), dim * den, den);
    vstd::arithmetic::div_mod::lemma_div_multiples_vanish(dim, den);
    assert(dim * den == den * dim) by (nonlinear_arith);
}

/// A scaled measurement is positive as soon as the product clears the
/// denominator.
proof fn lemma_scaled_pos(dim: int, num: int, den: int)
    requires
        0 < den,
        dim * num >= den,
    ensures
        scaled(dim, num, den) >= 1,
{
    vstd::arithmetic::div_mod::lemma_div_is_ordered(den, dim * num, den);
    vstd::arithmetic::div_mod::lemma_div_by_self(den);
}

/// Locates the name and description text regions of a card sub-image by the
/// fixed reference ratios.
///
/// Succeeds exactly when the card is large enough for both regions to have
/// positive dimensions (width at least 2 and height at least 11); the
/// returned regions are pinned by the scaling formulas and satisfy the
/// containment invariant against the card.  Smaller cards are rejected with
/// `RegionTooSmall`.
pub fn find_text_chunks<D: Diagnostic>(card: &PixelGrid, diag: Option<&D>) -> (r: Result<
    CardInfosTextChunks,
    ReadError,
>)
    requires
        card.width * REF_W <= usize::MAX,
        card.height * REF_H <= usize::MAX,
    ensures
        match r {
            Ok(c) => {
                &&& card.width >= 2
                &&& card.height >= 11
                &&& c.name.x == scaled(card.width as int, NAME_X as int, REF_W as int)
                &&& c.name.y == scaled(card.height as int, NAME_Y as int, REF_H as int)
                &&& c.name.width == scaled(card.width as int, NAME_W as int, REF_W as int)
                &&& c.name.height == scaled(card.height as int, NAME_H as int, REF_H as int)
                &&& c.description.x == scaled(card.width as int, DESC_X as int, REF_W as int)
                &&& c.description.y == scaled(card.height as int, DESC_Y as int, REF_H as int)
                &&& c.description.width == scaled(card.width as int, DESC_W as int, REF_W as int)
                &&& c.description.height == scaled(card.height as int, DESC_H as int, REF_H as int)
                &&& c.name.valid_for(card.width as int, card.height as int)
                &&& c.description.valid_for(card.width as int, card.height as int)
            },
            Err(e) => {
                &&& (card.width < 2 || card.height < 11)
                &&& e == ReadError::RegionTooSmall
            },
        },
{
    let w = card.width;
    let h = card.height;
    if w < 2 || h < 11 {
        return Err(ReadError::RegionTooSmall);
    }
    let name = RegionRect {
        x: w * NAME_X / REF_W,
        y: h * NAME_Y / REF_H,
        width: w * NAME_W / REF_W,
        height: h * NAME_H / REF_H,
    };
    let description = RegionRect {
        x: w * DESC_X / REF_W,
        y: h * DESC_Y / REF_H,
        width: w * DESC_W / REF_W,
        height: h * DESC_H / REF_H,
    };
    proof {
        lemma_scaled_parts_fit(w as int, NAME_X as int, NAME_W as int, REF_W as int);
        lemma_scaled_parts_fit(h as int, NAME_Y as int, NAME_H as int, REF_H as int);
        lemma_scaled_parts_fit(w as int, DESC_X as int, DESC_W as int, REF_W as int);
        lemma_scaled_parts_fit(h as int, DESC_Y as int, DESC_H as int, REF_H as int);
        assert(w as int * NAME_W >= REF_W) by (nonlinear_arith)
            requires
                w >= 2,
        ;
        assert(h as int * NAME_H >= REF_H) by (nonlinear_arith)
            requires
                h >= 11,
        ;
        assert(w as int * DESC_W >= REF_W) by (nonlinear_arith)
            requires
                w >= 2,
        ;
        assert(h as int * DESC_H >= REF_H) by (nonlinear_arith)
            requires
                h >= 11,
        ;
        lemma_scaled_pos(w as int, NAME_W as int, REF_W as int);
        lemma_scaled_pos(h as int, NAME_H as int, REF_H as int);
        lemma_scaled_pos(w as int, DESC_W as int, REF_W as int);
        lemma_scaled_pos(h as int, DESC_H as int, REF_H as int);
    }
    let chunks = CardInfosTextChunks { name, description };
    if let Some(d) = diag {
        d.diag_find_text_chunks(card, &chunks);
    }
    Ok(chunks)
}

/// The fixed-ratio locator is scale-invariant: scaling a card dimension by a
/// whole factor scales each located coordinate by the same factor, up to
/// less than one pixel of rounding per scale step.
pub proof fn lemma_locator_scale_invariant(dim: int, s: int, num: int, den: int)
    requires
        0 <= dim,
        1 <= s,
        0 <= num,
        0 < den,
    ensures
        s * scaled(dim, num, den) <= scaled(s * dim, num, den) < s * scaled(dim, num, den) + s,
{
    let q = dim * num / den;
    let r = dim * num % den;
    vstd::arithmetic::div_mod::lemma_fundamental_div_mod(dim * num, den);
    vstd::arithmetic::div_mod::lemma_mod_pos_bound(dim * num, den);
    assert((s * dim) * num == (s * q) * den + s * r) by (nonlinear_arith)
        requires
            dim * num == den * q + r,
    ;
    let q2 = (s * dim) * num / den;
    let r2 = (s * dim) * num % den;
    vstd::arithmetic::div_mod::lemma_fundamental_div_mod((s * dim) * num, den);
    vstd::arithmetic::div_mod::lemma_mod_pos_bound((s * dim) * num, den);
    // s * r == (q2 - s * q) * den + r2, with 0 <= r2 < den and 0 <= s * r <= s * (den - 1)
    assert(s * r == (q2 - s * q) * den + r2) by (nonlinear_arith)
        requires
            (s * dim) * num == (s * q) * den + s * r,
            (s * dim) * num == den * q2 + r2,
    ;
    assert(0 <= s * r <= s * (den - 1)) by (nonlinear_arith)
        requires
            0 <= r < den,
            1 <= s,
    ;
    let k = q2 - s * q;
    if k < 0 {
        assert(k * den + r2 < 0) by (nonlinear_arith)
            requires
                k <= -1,
                0 < den,
                0 <= r2 < den,
        ;
    }
    if k >= s {
        assert(k * den + r2 > s * (den - 1)) by (nonlinear_arith)
            requires
                k >= s,
                1 <= s,
                0 < den,
                0 <= r2,
        ;
    }
}

} // verus!
