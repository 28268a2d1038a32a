//! Drop shadows by the three-stage algorithm: rasterize a binary coverage
//! mask of the shape into a scratch grid, blur it with a separable box blur
//! (one clamped-window horizontal pass, then one vertical pass), and
//! composite the shadow color into the canvas scaled by the blurred
//! coverage, at a small offset.

use crate::canvas::{blended_pixel, lemma_pix_idx_bounds, same_shape, Canvas};
use crate::color::Color;
use crate::fixed::clamp_int;
use vstd::arithmetic::div_mod::{lemma_div_is_ordered, lemma_div_multiples_vanish};
use vstd::prelude::*;

verus! {

/// An index clamped to the closed range [0, hi].
pub open spec fn clamp_idx(v: int, hi: int) -> int {
    if v < 0 {
        0
    } else if v > hi {
        hi
    } else {
        v
    }
}

/// The rectangular shadow mask: full coverage at every cell of the grid.
pub open spec fn rect_mask_seq(w: int, h: int) -> Seq<u8> {
    Seq::new((w * h) as nat, |i: int| 255u8)
}

/// Coverage of one cell of the rounded-rectangle shadow mask: full inside
/// the non-corner cross or within the corner radius of a corner center,
/// empty outside.
pub open spec fn rounded_mask_val(px: int, py: int, w: int, h: int, r: int) -> u8 {
    if (r <= px && px < w - r) || (r <= py && py < h - r) {
        255
    } else if (px - r) * (px - r) + (py - r) * (py - r) <= r * r {
        255
    } else if (px - (w - r)) * (px - (w - r)) + (py - r) * (py - r) <= r * r {
        255
    } else if (px - r) * (px - r) + (py - (h - r)) * (py - (h - r)) <= r * r {
        255
    } else if (px - (w - r)) * (px - (w - r)) + (py - (h - r)) * (py - (h - r)) <= r * r {
        255
    } else {
        0
    }
}

/// The rounded-rectangle shadow mask as a row-major grid.
pub open spec fn rounded_mask_seq(w: int, h: int, r: int) -> Seq<u8> {
    Seq::new((w * h) as nat, |i: int| rounded_mask_val(i % w, i / w, w, h, r))
}

/// Sum of the horizontal blur window of row `y` centered at column `x`,
/// over offsets `d` to `r` inclusive, sampling with clamping at the row ends.
pub open spec fn row_win_sum(m: Seq<u8>, w: int, x: int, y: int, d: int, r: int) -> int
    decreases r - d + 1,
{
    if d > r {
        0
    } else {
        m[y * w + clamp_idx(x + d, w - 1)] + row_win_sum(m, w, x, y, d + 1, r)
    }
}

/// The horizontal box blur of cell (x, y): the average of the clamped
/// window of half-width `r` on its row.
pub open spec fn blur_row_at(m: Seq<u8>, w: int, x: int, y: int, r: int) -> int {
    row_win_sum(m, w, x, y, -r, r) / (2 * r + 1)
}

/// Sum of the vertical blur window of column `x` centered at row `y`,
/// over offsets `d` to `r` inclusive, sampling with clamping at the column ends.
pub open spec fn col_win_sum(m: Seq<u8>, w: int, h: int, x: int, y: int, d: int, r: int) -> int
    decreases r - d + 1,
{
    if d > r {
        0
    } else {
        m[clamp_idx(y + d, h - 1) * w + x] + col_win_sum(m, w, h, x, y, d + 1, r)
    }
}

/// The vertical box blur of cell (x, y).
pub open spec fn blur_col_at(m: Seq<u8>, w: int, h: int, x: int, y: int, r: int) -> int {
    col_win_sum(m, w, h, x, y, -r, r) / (2 * r + 1)
}

/// One full horizontal blur pass over the grid.
pub open spec fn blur_rows_seq(m: Seq<u8>, w: int, h: int, r: int) -> Seq<u8> {
    Seq::new((w * h) as nat, |i: int| blur_row_at(m, w, i % w, i / w, r) as u8)
}

/// One full vertical blur pass over the grid.
pub open spec fn blur_cols_seq(m: Seq<u8>, w: int, h: int, r: int) -> Seq<u8> {
    Seq::new((w * h) as nat, |i: int| blur_col_at(m, w, h, i % w, i / w, r) as u8)
}

/// The blurred shadow mask: the horizontal pass then the vertical pass for a
/// positive radius, the mask itself otherwise.
pub open spec fn blurred_mask(m: Seq<u8>, w: int, h: int, r: int) -> Seq<u8> {
    if r > 0 {
        blur_cols_seq(blur_rows_seq(m, w, h, r), w, h, r)
    } else {
        m
    }
}

/// The shadow color for one composited cell: the shadow's own color with its
/// alpha scaled by the blurred coverage fraction.
pub open spec fn shadow_color(c: Color, a: u8) -> Color {
    Color { r: c.r, g: c.g, b: c.b, a: (((a as int) * (c.a as int)) / 255) as u8 }
}

/// The value each canvas pixel takes when a blurred w x h coverage grid is
/// composited at (x + off, y + off): cells with positive blurred coverage are
/// alpha-blended with the scaled shadow color, all else is unchanged.
pub open spec fn shadow_pixel(
    p: (u8, u8, u8, u8),
    qx: int,
    qy: int,
    x: int,
    y: int,
    w: int,
    h: int,
    off: int,
    blurred: Seq<u8>,
    c: Color,
) -> (u8, u8, u8, u8) {
    let lx = qx - x - off;
    let ly = qy - y - off;
    if 0 <= lx < w && 0 <= ly < h && blurred[ly * w + lx] > 0 {
        blended_pixel(p, shadow_color(c, blurred[ly * w + lx]))
    } else {
        p
    }
}

/// Builds the full-coverage rectangular mask grid.
fn make_rect_mask(w: i32, h: i32) -> (m: Vec<u8>)
    requires
        0 < w,
        0 < h,
        w as int * h as int <= i32::MAX as int,
    ensures
        m@ == rect_mask_seq(w as int, h as int),
{
    let n: usize = (w * h) as usize;
    let mut m: Vec<u8> = Vec::new();
    let mut i: usize = 0;
    while i < n
        invariant
            i <= n,
            m@.len() == i,
            forall|j: int| 0 <= j < i ==> m@[j] == 255u8,
        decreases n - i,
    {
        m.push(255);
        i = i + 1;
    }
    proof {
        assert(m@ =~= rect_mask_seq(w as int, h as int));
    }
    m
}

/// Builds the rounded-rectangle mask grid: full coverage on the non-corner
/// cross and within the corner radius of each corner center.
fn make_rounded_mask(w: i32, h: i32, r: i32) -> (m: Vec<u8>)
    requires
        0 < w,
        0 < h,
        0 <= r,
        w as int * h as int <= i32::MAX as int,
    ensures
        m@ == rounded_mask_seq(w as int, h as int, r as int),
{
    let mut m: Vec<u8> = Vec::new();
    let mut py: i32 = 0;
    while py < h
        invariant
            0 <= py <= h,
            0 < w,
            0 < h,
            0 <= r,
            w as int * h as int <= i32::MAX as int,
            m@.len() == py as int * w as int,
            forall|j: int|
                0 <= j < m@.len() ==> m@[j] == rounded_mask_val(
                    j % (w as int),
                    j / (w as int),
                    w as int,
                    h as int,
                    r as int,
                ),
        decreases h - py,
    {
        proof {
            lemma_pix_idx_bounds(w as int, h as int, 0, py as int);
        }
        let mut px: i32 = 0;
        while px < w
            invariant
                0 <= px <= w,
                0 <= py < h,
                0 < w,
                0 < h,
                0 <= r,
                w as int * h as int <= i32::MAX as int,
                m@.len() == py as int * w as int + px as int,
                m@.len() <= w as int * h as int,
                forall|j: int|
                    0 <= j < m@.len() ==> m@[j] == rounded_mask_val(
                        j % (w as int),
                        j / (w as int),
                        w as int,
                        h as int,
                        r as int,
                    ),
            decreases w - px,
        {
            let pxl: i128 = px as i128;
            let pyl: i128 = py as i128;
            let wl: i128 = w as i128;
            let hl: i128 = h as i128;
            let rl: i128 = r as i128;
            let in_cross: bool = (rl <= pxl && pxl < wl - rl) || (rl <= pyl && pyl < hl - rl);
            proof {
                assert forall|a: int| -0x2_0000_0000 <= a <= 0x2_0000_0000 implies 0 <= #[trigger] (a * a)
                    <= 0x4_0000_0000_0000_0000 by {
                    assert(0 <= a * a <= 0x4_0000_0000_0000_0000) by (nonlinear_arith)
                        requires
                            -0x2_0000_0000 <= a <= 0x2_0000_0000,
                    ;
                }
            }
            let v: u8 = if in_cross {
                255
            } else if (pxl - rl) * (pxl - rl) + (pyl - rl) * (pyl - rl) <= rl * rl {
                255
            } else if (pxl - (wl - rl)) * (pxl - (wl - rl)) + (pyl - rl) * (pyl - rl) <= rl * rl {
                255
            } else if (pxl - rl) * (pxl - rl) + (pyl - (hl - rl)) * (pyl - (hl - rl)) <= rl * rl {
                255
            } else if (pxl - (wl - rl)) * (pxl - (wl - rl)) + (pyl - (hl - rl)) * (pyl - (hl - rl))
                <= rl * rl {
                255
            } else {
                0
            };
            proof {
                let k = py as int * w as int + px as int;
                vstd::arithmetic::div_mod::lemma_fundamental_div_mod_converse(
                    k,
                    w as int,
                    py as int,
                    px as int,
                );
                assert(v == rounded_mask_val(px as int, py as int, w as int, h as int, r as int));
                lemma_pix_idx_bounds(w as int, h as int, px as int, py as int);
            }
            m.push(v);
            px = px + 1;
        }
        proof {
            assert((py as int + 1) * (w as int) == py as int * w as int + w as int)
                by (nonlinear_arith);
        }
        py = py + 1;
    }
    proof {
        assert(h as int * w as int == w as int * h as int) by (nonlinear_arith);
        assert(m@.len() == rounded_mask_seq(w as int, h as int, r as int).len());
        assert forall|i: int| 0 <= i < m@.len() implies m@[i] == rounded_mask_seq(
            w as int,
            h as int,
            r as int,
        )[i] by {}
        assert(m@ =~= rounded_mask_seq(w as int, h as int, r as int));
    }
    m
}

/// One horizontal box-blur pass: each output cell is the clamped-window
/// average of its row.
fn blur_pass_rows(m: &Vec<u8>, w: i32, h: i32, r: i32) -> (out: Vec<u8>)
    requires
        0 < w,
        0 < h,
        0 <= r <= 8,
        w as int * h as int <= i32::MAX as int,
        m@.len() == w as int * h as int,
    ensures
        out@ == blur_rows_seq(m@, w as int, h as int, r as int),
{
    let mut out: Vec<u8> = Vec::new();
    let mut py: i32 = 0;
    while py < h
        invariant
            0 <= py <= h,
            0 < w,
            0 < h,
            0 <= r <= 8,
            w as int * h as int <= i32::MAX as int,
            m@.len() == w as int * h as int,
            out@.len() == py as int * w as int,
            forall|j: int|
                0 <= j < out@.len() ==> out@[j] == blur_row_at(
                    m@,
                    w as int,
                    j % (w as int),
                    j / (w as int),
                    r as int,
                ) as u8,
        decreases h - py,
    {
        let mut px: i32 = 0;
        proof {
            lemma_pix_idx_bounds(w as int, h as int, 0, py as int);
        }
        while px < w
            invariant
                0 <= px <= w,
                0 <= py < h,
                0 < w,
                0 < h,
                0 <= r <= 8,
                w as int * h as int <= i32::MAX as int,
                m@.len() == w as int * h as int,
                out@.len() == py as int * w as int + px as int,
                out@.len() <= w as int * h as int,
                forall|j: int|
                    0 <= j < out@.len() ==> out@[j] == blur_row_at(
                        m@,
                        w as int,
                        j % (w as int),
                        j / (w as int),
                        r as int,
                    ) as u8,
            decreases w - px,
        {
            let mut d: i32 = r;
            let mut sum: i64 = 0;
            while d >= -r
                invariant
                    -r - 1 <= d <= r,
                    0 <= px < w,
                    0 <= py < h,
                    0 < w,
                    0 < h,
                    0 <= r <= 8,
                    w as int * h as int <= i32::MAX as int,
                    m@.len() == w as int * h as int,
                    sum == row_win_sum(m@, w as int, px as int, py as int, d as int + 1, r as int),
                    0 <= sum <= 255 * (r as int - d as int),
                decreases d + r + 1,
            {
                let sl: i64 = px as i64 + d as i64;
                let sx: i32 = if sl < 0 {
                    0
                } else if sl > (w - 1) as i64 {
                    w - 1
                } else {
                    sl as i32
                };
                proof {
                    lemma_pix_idx_bounds(w as int, h as int, sx as int, py as int);
                }
                let idx: usize = (py * w + sx) as usize;
                sum = sum + (m[idx] as i64);
                d = d - 1;
            }
            let v64: i64 = sum / (2 * (r as i64) + 1);
            proof {
                assert((py as int + 1) * (w as int) <= (w as int) * (h as int)) by (nonlinear_arith)
                    requires
                        0 <= (py as int),
                        (py as int) < (h as int),
                        0 < (w as int),
                ;
                lemma_blur_row_at_bounds(m@, w as int, px as int, py as int, r as int);
            }
            let v: u8 = v64 as u8;
            proof {
                let k = py as int * w as int + px as int;
                vstd::arithmetic::div_mod::lemma_fundamental_div_mod_converse(
                    k,
                    w as int,
                    py as int,
                    px as int,
                );
                lemma_pix_idx_bounds(w as int, h as int, px as int, py as int);
            }
            out.push(v);
            px = px + 1;
        }
        proof {
            assert((py as int + 1) * (w as int) == py as int * w as int + w as int)
                by (nonlinear_arith);
        }
        py = py + 1;
    }
    proof {
        assert(h as int * w as int == w as int * h as int) by (nonlinear_arith);
        assert(out@.len() == blur_rows_seq(m@, w as int, h as int, r as int).len());
        assert forall|i: int| 0 <= i < out@.len() implies out@[i] == blur_rows_seq(
            m@,
            w as int,
            h as int,
            r as int,
        )[i] by {}
        assert(out@ =~= blur_rows_seq(m@, w as int, h as int, r as int));
    }
    out
}

/// One vertical box-blur pass: each output cell is the clamped-window
/// average of its column.
fn blur_pass_cols(m: &Vec<u8>, w: i32, h: i32, r: i32) -> (out: Vec<u8>)
    requires
        0 < w,
        0 < h,
        0 <= r <= 8,
        w as int * h as int <= i32::MAX as int,
        m@.len() == w as int * h as int,
    ensures
        out@ == blur_cols_seq(m@, w as int, h as int, r as int),
{
    let mut out: Vec<u8> = Vec::new();
    let mut py: i32 = 0;
    while py < h
        invariant
            0 <= py <= h,
            0 < w,
            0 < h,
            0 <= r <= 8,
            w as int * h as int <= i32::MAX as int,
            m@.len() == w as int * h as int,
            out@.len() == py as int * w as int,
            forall|j: int|
                0 <= j < out@.len() ==> out@[j] == blur_col_at(
                    m@,
                    w as int,
                    h as int,
                    j % (w as int),
                    j / (w as int),
                    r as int,
                ) as u8,
        decreases h - py,
    {
        let mut px: i32 = 0;
        proof {
            lemma_pix_idx_bounds(w as int, h as int, 0, py as int);
        }
        while px < w
            invariant
                0 <= px <= w,
                0 <= py < h,
                0 < w,
                0 < h,
                0 <= r <= 8,
                w as int * h as int <= i32::MAX as int,
                m@.len() == w as int * h as int,
                out@.len() == py as int * w as int + px as int,
                out@.len() <= w as int * h as int,
                forall|j: int|
                    0 <= j < out@.len() ==> out@[j] == blur_col_at(
                        m@,
                        w as int,
                        h as int,
                        j % (w as int),
                        j / (w as int),
                        r as int,
                    ) as u8,
            decreases w - px,
        {
            let mut d: i32 = r;
            let mut sum: i64 = 0;
            while d >= -r
                invariant
                    -r - 1 <= d <= r,
                    0 <= px < w,
                    0 <= py < h,
                    0 < w,
                    0 < h,
                    0 <= r <= 8,
                    w as int * h as int <= i32::MAX as int,
                    m@.len() == w as int * h as int,
                    sum == col_win_sum(
                        m@,
                        w as int,
                        h as int,
                        px as int,
                        py as int,
                        d as int + 1,
                        r as int,
                    ),
                    0 <= sum <= 255 * (r as int - d as int),
                decreases d + r + 1,
            {
                let sl: i64 = py as i64 + d as i64;
                let sy: i32 = if sl < 0 {
                    0
                } else if sl > (h - 1) as i64 {
                    h - 1
                } else {
                    sl as i32
                };
                proof {
                    lemma_pix_idx_bounds(w as int, h as int, px as int, sy as int);
                }
                let idx: usize = (sy * w + px) as usize;
                sum = sum + (m[idx] as i64);
                d = d - 1;
            }
            let v64: i64 = sum / (2 * (r as i64) + 1);
            proof {
                assert(h as int * w as int <= m@.len()) by (nonlinear_arith)
                    requires
                        m@.len() == w as int * h as int,
                ;
                lemma_blur_col_at_bounds(
                    m@,
                    w as int,
                    h as int,
                    px as int,
                    py as int,
                    r as int,
                );
            }
            let v: u8 = v64 as u8;
            proof {
                let k = py as int * w as int + px as int;
                vstd::arithmetic::div_mod::lemma_fundamental_div_mod_converse(
                    k,
                    w as int,
                    py as int,
                    px as int,
                );
                lemma_pix_idx_bounds(w as int, h as int, px as int, py as int);
            }
            out.push(v);
            px = px + 1;
        }
        proof {
            assert((py as int + 1) * (w as int) == py as int * w as int + w as int)
                by (nonlinear_arith);
        }
        py = py + 1;
    }
    proof {
        assert(h as int * w as int == w as int * h as int) by (nonlinear_arith);
        assert(out@.len() == blur_cols_seq(m@, w as int, h as int, r as int).len());
        assert forall|i: int| 0 <= i < out@.len() implies out@[i] == blur_cols_seq(
            m@,
            w as int,
            h as int,
            r as int,
        )[i] by {}
        assert(out@ =~= blur_cols_seq(m@, w as int, h as int, r as int));
    }
    out
}

impl Canvas {
    /// Composites a blurred coverage grid into the canvas at the given
    /// offset: every cell with positive coverage alpha-blends the shadow
    /// color, scaled by the coverage, into its target pixel.
    fn composite_shadow(
        &mut self,
        x: i32,
        y: i32,
        w: i32,
        h: i32,
        off: i32,
        blurred: &Vec<u8>,
        color: Color,
    )
        requires
            old(self).wf(),
            0 < w,
            0 < h,
            0 <= off <= 4,
            w as int * h as int <= i32::MAX as int,
            blurred@.len() == w as int * h as int,
            x as int + w as int + off as int <= i32::MAX as int,
            y as int + h as int + off as int <= i32::MAX as int,
        ensures
            final(self).wf(),
            same_shape(old(self), final(self)),
            forall|qx: int, qy: int|
                old(self).in_bounds(qx, qy) ==> #[trigger] final(self).pixel(qx, qy)
                    == shadow_pixel(
                    old(self).pixel(qx, qy),
                    qx,
                    qy,
                    x as int,
                    y as int,
                    w as int,
                    h as int,
                    off as int,
                    blurred@,
                    color,
                ),
    {
        let mut py: i32 = 0;
        while py < h
            invariant
                self.wf(),
                same_shape(old(self), self),
                0 <= py <= h,
                0 < w,
                0 < h,
                0 <= off <= 4,
                w as int * h as int <= i32::MAX as int,
                blurred@.len() == w as int * h as int,
                x as int + w as int + off as int <= i32::MAX as int,
                y as int + h as int + off as int <= i32::MAX as int,
                forall|qx: int, qy: int|
                    old(self).in_bounds(qx, qy) ==> #[trigger] self.pixel(qx, qy) == (
                    if qy - y - off < py as int {
                        shadow_pixel(
                            old(self).pixel(qx, qy),
                            qx,
                            qy,
                            x as int,
                            y as int,
                            w as int,
                            h as int,
                            off as int,
                            blurred@,
                            color,
                        )
                    } else {
                        old(self).pixel(qx, qy)
                    }),
            decreases h - py,
        {
            let mut px: i32 = 0;
            while px < w
                invariant
                    self.wf(),
                    same_shape(old(self), self),
                    0 <= px <= w,
                    0 <= py < h,
                    0 < w,
                    0 < h,
                    0 <= off <= 4,
                    w as int * h as int <= i32::MAX as int,
                    blurred@.len() == w as int * h as int,
                    x as int + w as int + off as int <= i32::MAX as int,
                    y as int + h as int + off as int <= i32::MAX as int,
                    forall|qx: int, qy: int|
                        old(self).in_bounds(qx, qy) ==> #[trigger] self.pixel(qx, qy) == (
                        if qy - y - off < py as int || (qy - y - off == py as int && qx - x - off
                            < px as int) {
                            shadow_pixel(
                                old(self).pixel(qx, qy),
                                qx,
                                qy,
                                x as int,
                                y as int,
                                w as int,
                                h as int,
                                off as int,
                                blurred@,
                                color,
                            )
                        } else {
                            old(self).pixel(qx, qy)
                        }),
                decreases w - px,
            {
                proof {
                    lemma_pix_idx_bounds(w as int, h as int, px as int, py as int);
                }
                let idx: usize = (py * w + px) as usize;
                let a: u8 = blurred[idx];
                if a > 0 {
                    proof {
                        assert(0 <= (a as int) * (color.a as int) <= 255 * 255) by (nonlinear_arith)
                            requires
                                0 <= a as int <= 255,
                                0 <= color.a as int <= 255,
                        ;
                    }
                    let sa: u8 = (((a as u32) * (color.a as u32)) / 255) as u8;
                    let sc = Color { r: color.r, g: color.g, b: color.b, a: sa };
                    self.blend_pixel(x + px + off, y + py + off, sc);
                }
                px = px + 1;
            }
            py = py + 1;
        }
    }

    /// Drop shadow of a solid rectangle: rasterizes a full-coverage mask of
    /// the rectangle, box-blurs it separably with the given radius (clamped
    /// to at most 8), and alpha-blends the shadow color scaled by the
    /// blurred coverage at an offset of half the blur radius.
    pub fn draw_shadow(&mut self, x: i32, y: i32, width: i32, height: i32, blur: i32, color: Color)
        requires
            old(self).wf(),
            width as int * height as int <= i32::MAX as int,
            x as int + width as int + 4 <= i32::MAX as int,
            y as int + height as int + 4 <= i32::MAX as int,
        ensures
            final(self).wf(),
            same_shape(old(self), final(self)),
            width <= 0 || height <= 0 ==> final(self).buffer@ == old(self).buffer@,
            0 < width && 0 < height ==> forall|qx: int, qy: int|
                old(self).in_bounds(qx, qy) ==> #[trigger] final(self).pixel(qx, qy)
                    == shadow_pixel(
                    old(self).pixel(qx, qy),
                    qx,
                    qy,
                    x as int,
                    y as int,
                    width as int,
                    height as int,
                    clamp_int(blur as int, 0, 8) / 2,
                    blurred_mask(
                        rect_mask_seq(width as int, height as int),
                        width as int,
                        height as int,
                        clamp_int(blur as int, 0, 8),
                    ),
                    color,
                ),
    {
        if width <= 0 || height <= 0 {
            return ;
        }
        let b: i32 = if blur < 0 {
            0
        } else if blur > 8 {
            8
        } else {
            blur
        };
        let mask = make_rect_mask(width, height);
        let blurred: Vec<u8> = if b > 0 {
            let tmp = blur_pass_rows(&mask, width, height, b);
            blur_pass_cols(&tmp, width, height, b)
        } else {
            mask
        };
        self.composite_shadow(x, y, width, height, b / 2, &blurred, color);
    }

    /// Drop shadow of a rounded rectangle: like `draw_shadow`, with the mask
    /// following the rounded outline by the same corner-distance test the
    /// rounded fill uses.
    pub fn draw_rounded_shadow(
        &mut self,
        x: i32,
        y: i32,
        width: i32,
        height: i32,
        radius: i32,
        blur: i32,
        color: Color,
    )
        requires
            old(self).wf(),
            0 <= radius,
            width as int * height as int <= i32::MAX as int,
            x as int + width as int + 4 <= i32::MAX as int,
            y as int + height as int + 4 <= i32::MAX as int,
        ensures
            final(self).wf(),
            same_shape(old(self), final(self)),
            width <= 0 || height <= 0 ==> final(self).buffer@ == old(self).buffer@,
            0 < width && 0 < height ==> forall|qx: int, qy: int|
                old(self).in_bounds(qx, qy) ==> #[trigger] final(self).pixel(qx, qy)
                    == shadow_pixel(
                    old(self).pixel(qx, qy),
                    qx,
                    qy,
                    x as int,
                    y as int,
                    width as int,
                    height as int,
                    clamp_int(blur as int, 0, 8) / 2,
                    blurred_mask(
                        rounded_mask_seq(width as int, height as int, radius as int),
                        width as int,
                        height as int,
                        clamp_int(blur as int, 0, 8),
                    ),
                    color,
                ),
    {
        if width <= 0 || height <= 0 {
            return ;
        }
        let b: i32 = if blur < 0 {
            0
        } else if blur > 8 {
            8
        } else {
            blur
        };
        let mask = make_rounded_mask(width, height, radius);
        let blurred: Vec<u8> = if b > 0 {
            let tmp = blur_pass_rows(&mask, width, height, b);
            blur_pass_cols(&tmp, width, height, b)
        } else {
            mask
        };
        self.composite_shadow(x, y, width, height, b / 2, &blurred, color);
    }
}

/// A window sum lies between 0 and 255 per sample.
proof fn lemma_row_win_sum_bounds(m: Seq<u8>, w: int, x: int, y: int, d: int, r: int)
    requires
        0 < w,
        0 <= y,
        (y + 1) * w <= m.len(),
    ensures
        0 <= row_win_sum(m, w, x, y, d, r),
        row_win_sum(m, w, x, y, d, r) <= if d > r {
            0
        } else {
            255 * (r - d + 1)
        },
    decreases r - d + 1,
{
    if d <= r {
        lemma_row_win_sum_bounds(m, w, x, y, d + 1, r);
        let c = clamp_idx(x + d, w - 1);
        assert(y * w <= y * w + c < (y + 1) * w) by (nonlinear_arith)
            requires
                0 <= c < w,
                0 <= y,
        ;
    }
}

/// A vertical window sum lies between 0 and 255 per sample.
proof fn lemma_col_win_sum_bounds(m: Seq<u8>, w: int, h: int, x: int, y: int, d: int, r: int)
    requires
        0 < w,
        0 < h,
        0 <= x < w,
        h * w <= m.len(),
    ensures
        0 <= col_win_sum(m, w, h, x, y, d, r),
        col_win_sum(m, w, h, x, y, d, r) <= if d > r {
            0
        } else {
            255 * (r - d + 1)
        },
    decreases r - d + 1,
{
    if d <= r {
        lemma_col_win_sum_bounds(m, w, h, x, y, d + 1, r);
        let c = clamp_idx(y + d, h - 1);
        assert(0 <= c * w + x < h * w) by (nonlinear_arith)
            requires
                0 <= c < h,
                0 <= x < w,
        ;
    }
}

/// The horizontal blur of a cell is itself a coverage value in [0, 255].
pub proof fn lemma_blur_row_at_bounds(m: Seq<u8>, w: int, x: int, y: int, r: int)
    requires
        0 < w,
        0 <= y,
        0 <= r,
        (y + 1) * w <= m.len(),
    ensures
        0 <= blur_row_at(m, w, x, y, r) <= 255,
{
    lemma_row_win_sum_bounds(m, w, x, y, -r, r);
    let s = row_win_sum(m, w, x, y, -r, r);
    lemma_div_is_ordered(0, s, 2 * r + 1);
    assert(s <= 255 * (2 * r + 1));
    lemma_div_is_ordered(s, 255 * (2 * r + 1), 2 * r + 1);
    lemma_div_multiples_vanish(255, 2 * r + 1);
}

/// Every row of the grid is non-increasing left to right: coverage never
/// grows as the sampled distance from the shape boundary increases.
pub open spec fn rows_non_increasing(m: Seq<u8>, w: int, h: int) -> bool {
    forall|yy: int, a: int, b: int|
        0 <= yy < h && 0 <= a <= b < w ==> #[trigger] m[yy * w + a] >= #[trigger] m[yy * w + b]
}

/// A horizontal window sum never increases as its center moves right along a
/// non-increasing row: clamped sampling is monotone, so every sample of the
/// right window is dominated by the corresponding sample of the left one.
proof fn lemma_row_win_sum_monotone(
    m: Seq<u8>,
    w: int,
    h: int,
    y: int,
    d: int,
    r: int,
    x1: int,
    x2: int,
)
    requires
        x1 <= x2,
        0 < w,
        0 <= y < h,
        h * w <= m.len(),
        rows_non_increasing(m, w, h),
    ensures
        row_win_sum(m, w, x1, y, d, r) >= row_win_sum(m, w, x2, y, d, r),
    decreases r - d + 1,
{
    if d <= r {
        lemma_row_win_sum_monotone(m, w, h, y, d + 1, r, x1, x2);
        let c1 = clamp_idx(x1 + d, w - 1);
        let c2 = clamp_idx(x2 + d, w - 1);
        assert(0 <= c1 <= c2 < w);
        assert(m[y * w + c1] >= m[y * w + c2]);
    }
}

/// A vertical window sum never increases as its column moves right through a
/// grid whose rows are all non-increasing.
proof fn lemma_col_win_sum_monotone(
    m: Seq<u8>,
    w: int,
    h: int,
    y: int,
    d: int,
    r: int,
    x1: int,
    x2: int,
)
    requires
        0 <= x1 <= x2 < w,
        0 < h,
        h * w <= m.len(),
        rows_non_increasing(m, w, h),
    ensures
        col_win_sum(m, w, h, x1, y, d, r) >= col_win_sum(m, w, h, x2, y, d, r),
    decreases r - d + 1,
{
    if d <= r {
        lemma_col_win_sum_monotone(m, w, h, y, d + 1, r, x1, x2);
        let cy = clamp_idx(y + d, h - 1);
        assert(0 <= cy < h);
        assert(m[cy * w + x1] >= m[cy * w + x2]);
    }
}

/// The horizontal blur of a non-increasing row is non-increasing.
pub proof fn lemma_blur_row_monotone(
    m: Seq<u8>,
    w: int,
    h: int,
    y: int,
    r: int,
    x1: int,
    x2: int,
)
    requires
        x1 <= x2,
        0 < w,
        0 <= y < h,
        0 <= r,
        h * w <= m.len(),
        rows_non_increasing(m, w, h),
    ensures
        blur_row_at(m, w, x1, y, r) >= blur_row_at(m, w, x2, y, r),
{
    lemma_row_win_sum_monotone(m, w, h, y, -r, r, x1, x2);
    lemma_div_is_ordered(
        row_win_sum(m, w, x2, y, -r, r),
        row_win_sum(m, w, x1, y, -r, r),
        2 * r + 1,
    );
}

/// The vertical blur of a grid with non-increasing rows is non-increasing
/// along every row.
pub proof fn lemma_blur_col_monotone(
    m: Seq<u8>,
    w: int,
    h: int,
    y: int,
    r: int,
    x1: int,
    x2: int,
)
    requires
        0 <= x1 <= x2 < w,
        0 < h,
        0 <= r,
        h * w <= m.len(),
        rows_non_increasing(m, w, h),
    ensures
        blur_col_at(m, w, h, x1, y, r) >= blur_col_at(m, w, h, x2, y, r),
{
    lemma_col_win_sum_monotone(m, w, h, y, -r, r, x1, x2);
    lemma_div_is_ordered(
        col_win_sum(m, w, h, x2, y, -r, r),
        col_win_sum(m, w, h, x1, y, -r, r),
        2 * r + 1,
    );
}

/// The law of the shadow's softness: if every row of a shadow mask is
/// non-increasing left to right, then so is every row of the fully blurred
/// mask. The blurred alpha a drop shadow composites is monotonically
/// non-increasing as the sampled distance from the shape boundary grows.
pub proof fn lemma_blurred_mask_monotone(
    m: Seq<u8>,
    w: int,
    h: int,
    r: int,
    y: int,
    x1: int,
    x2: int,
)
    requires
        0 <= x1 <= x2 < w,
        0 <= y < h,
        0 < w,
        0 < h,
        0 <= r,
        m.len() == w * h,
        rows_non_increasing(m, w, h),
    ensures
        blurred_mask(m, w, h, r)[y * w + x1] >= blurred_mask(m, w, h, r)[y * w + x2],
{
    assert(h * w == w * h) by (nonlinear_arith);
    lemma_pix_idx_bounds(w, h, x1, y);
    lemma_pix_idx_bounds(w, h, x2, y);
    if r > 0 {
        let t = blur_rows_seq(m, w, h, r);
        assert(rows_non_increasing(t, w, h)) by {
            assert forall|yy: int, a: int, b: int|
                0 <= yy < h && 0 <= a <= b < w implies #[trigger] t[yy * w + a] >= #[trigger] t[yy
                * w + b] by {
                lemma_pix_idx_bounds(w, h, a, yy);
                lemma_pix_idx_bounds(w, h, b, yy);
                vstd::arithmetic::div_mod::lemma_fundamental_div_mod_converse(yy * w + a, w, yy, a);
                vstd::arithmetic::div_mod::lemma_fundamental_div_mod_converse(yy * w + b, w, yy, b);
                assert((yy + 1) * w <= m.len()) by (nonlinear_arith)
                    requires
                        0 <= yy,
                        yy < h,
                        0 < w,
                        m.len() == w * h,
                ;
                lemma_blur_row_monotone(m, w, h, yy, r, a, b);
                lemma_blur_row_at_bounds(m, w, a, yy, r);
                lemma_blur_row_at_bounds(m, w, b, yy, r);
            }
        }
        vstd::arithmetic::div_mod::lemma_fundamental_div_mod_converse(y * w + x1, w, y, x1);
        vstd::arithmetic::div_mod::lemma_fundamental_div_mod_converse(y * w + x2, w, y, x2);
        lemma_blur_col_monotone(t, w, h, y, r, x1, x2);
        lemma_blur_col_at_bounds(t, w, h, x1, y, r);
        lemma_blur_col_at_bounds(t, w, h, x2, y, r);
    }
}

/// A constant window always sums to 255 per sample, so the box blur of the
/// full-coverage rectangular mask is full coverage again.
proof fn lemma_const_row_win_sum(m: Seq<u8>, w: int, h: int, x: int, y: int, d: int, r: int)
    requires
        0 < w,
        0 <= y < h,
        h * w <= m.len(),
        forall|j: int| 0 <= j < m.len() ==> m[j] == 255u8,
    ensures
        row_win_sum(m, w, x, y, d, r) == if d > r {
            0
        } else {
            255 * (r - d + 1)
        },
    decreases r - d + 1,
{
    if d <= r {
        lemma_const_row_win_sum(m, w, h, x, y, d + 1, r);
        let c = clamp_idx(x + d, w - 1);
        assert(0 <= y * w + c < h * w) by (nonlinear_arith)
            requires
                0 <= c < w,
                0 <= y < h,
        ;
    }
}

/// The horizontal blur of a full-coverage grid is full coverage at every cell.
pub proof fn lemma_blur_row_const_full(m: Seq<u8>, w: int, h: int, x: int, y: int, r: int)
    requires
        0 < w,
        0 <= y < h,
        0 <= r,
        h * w <= m.len(),
        forall|j: int| 0 <= j < m.len() ==> m[j] == 255u8,
    ensures
        blur_row_at(m, w, x, y, r) == 255,
{
    lemma_const_row_win_sum(m, w, h, x, y, -r, r);
    assert(255 * (2 * r + 1) == (2 * r + 1) * 255) by (nonlinear_arith);
    lemma_div_multiples_vanish(255, 2 * r + 1);
}

/// The vertical blur of a cell is itself a coverage value in [0, 255].
pub proof fn lemma_blur_col_at_bounds(m: Seq<u8>, w: int, h: int, x: int, y: int, r: int)
    requires
        0 < w,
        0 < h,
        0 <= x < w,
        0 <= r,
        h * w <= m.len(),
    ensures
        0 <= blur_col_at(m, w, h, x, y, r) <= 255,
{
    lemma_col_win_sum_bounds(m, w, h, x, y, -r, r);
    let s = col_win_sum(m, w, h, x, y, -r, r);
    lemma_div_is_ordered(0, s, 2 * r + 1);
    assert(s <= 255 * (2 * r + 1));
    lemma_div_is_ordered(s, 255 * (2 * r + 1), 2 * r + 1);
    lemma_div_multiples_vanish(255, 2 * r + 1);
}

/// A constant vertical window also sums to 255 per sample.
proof fn lemma_const_col_win_sum(m: Seq<u8>, w: int, h: int, x: int, y: int, d: int, r: int)
    requires
        0 < h,
        0 <= x < w,
        h * w <= m.len(),
        forall|j: int| 0 <= j < m.len() ==> m[j] == 255u8,
    ensures
        col_win_sum(m, w, h, x, y, d, r) == if d > r {
            0
        } else {
            255 * (r - d + 1)
        },
    decreases r - d + 1,
{
    if d <= r {
        lemma_const_col_win_sum(m, w, h, x, y, d + 1, r);
        let c = clamp_idx(y + d, h - 1);
        assert(0 <= c * w + x < h * w) by (nonlinear_arith)
            requires
                0 <= c < h,
                0 <= x < w,
        ;
    }
}

/// The vertical blur of a full-coverage grid is full coverage at every cell.
pub proof fn lemma_blur_col_const_full(m: Seq<u8>, w: int, h: int, x: int, y: int, r: int)
    requires
        0 < h,
        0 <= x < w,
        0 <= r,
        h * w <= m.len(),
        forall|j: int| 0 <= j < m.len() ==> m[j] == 255u8,
    ensures
        blur_col_at(m, w, h, x, y, r) == 255,
{
    lemma_const_col_win_sum(m, w, h, x, y, -r, r);
    assert(255 * (2 * r + 1) == (2 * r + 1) * 255) by (nonlinear_arith);
    lemma_div_multiples_vanish(255, 2 * r + 1);
}

/// The full-coverage rectangular mask blurs back to full coverage through
/// both separable passes: the blurred alpha a rectangle's drop shadow
/// composites is the same everywhere over the shape, so it is trivially
/// non-increasing with the sampled distance.
pub proof fn lemma_blurred_rect_mask_full(w: int, h: int, r: int, qx: int, qy: int)
    requires
        0 < w,
        0 < h,
        0 <= r,
        0 <= qx < w,
        0 <= qy < h,
    ensures
        blurred_mask(rect_mask_seq(w, h), w, h, r)[qy * w + qx] == 255,
{
    let m = rect_mask_seq(w, h);
    assert(h * w == w * h) by (nonlinear_arith);
    lemma_pix_idx_bounds(w, h, qx, qy);
    if r > 0 {
        let t = blur_rows_seq(m, w, h, r);
        assert(forall|j: int| 0 <= j < t.len() ==> t[j] == 255u8) by {
            assert forall|j: int| 0 <= j < t.len() implies t[j] == 255u8 by {
                let jx = j % w;
                let jy = j / w;
                vstd::arithmetic::div_mod::lemma_fundamental_div_mod(j, w);
                vstd::arithmetic::div_mod::lemma_mod_bound(j, w);
                assert(0 <= jy < h) by (nonlinear_arith)
                    requires
                        j == w * jy + jx,
                        0 <= jx < w,
                        0 <= j < w * h,
                        0 < w,
                ;
                assert((jy + 1) * w <= m.len()) by (nonlinear_arith)
                    requires
                        0 <= jy,
                        jy < h,
                        0 < w,
                        m.len() == w * h,
                ;
                lemma_blur_row_const_full(m, w, h, jx, jy, r);
            }
        }
        vstd::arithmetic::div_mod::lemma_fundamental_div_mod_converse(qy * w + qx, w, qy, qx);
        lemma_blur_col_const_full(t, w, h, qx, qy, r);
    }
}

} // verus!
