//! The raster surface: a mutable pixel buffer of known width and height in a
//! fixed byte layout (B, G, R, A per pixel, row-major), with pixel-level
//! drawing primitives. Every primitive writes only pixels inside the buffer
//! bounds; out-of-range coordinates are silently skipped, never an error.

use crate::color::Color;
use crate::fixed::{clamp_int, sqrt_floor};
use vstd::prelude::*;

verus! {

/// The four bytes a color occupies in the buffer, in buffer order (B, G, R, A).
pub open spec fn stored_pixel(c: Color) -> (u8, u8, u8, u8) {
    (c.b, c.g, c.r, c.a)
}

/// Byte offset of the first byte of pixel (px, py) in a row-major buffer of width `w`.
pub open spec fn pix_idx(w: int, px: int, py: int) -> int {
    4 * (py * w + px)
}

/// The stored bytes of pixel (px, py).
pub open spec fn pixel_at(buf: Seq<u8>, w: int, px: int, py: int) -> (u8, u8, u8, u8) {
    (
        buf[pix_idx(w, px, py)],
        buf[pix_idx(w, px, py) + 1],
        buf[pix_idx(w, px, py) + 2],
        buf[pix_idx(w, px, py) + 3],
    )
}

/// Source-over compositing of one 8-bit channel, in 8-bit fixed point:
/// `dst * (255 - a) / 255 + src * a / 255`, truncated.
pub open spec fn blend_channel(dst: u8, src: u8, a: u8) -> u8 {
    (((dst as int) * (255 - a as int) + (src as int) * (a as int)) / 255) as u8
}

/// Source-over compositing of a stored pixel with a color. The destination's
/// own alpha byte is not modified.
pub open spec fn blended_pixel(p: (u8, u8, u8, u8), c: Color) -> (u8, u8, u8, u8) {
    (blend_channel(p.0, c.b, c.a), blend_channel(p.1, c.g, c.a), blend_channel(p.2, c.r, c.a), p.3)
}

/// Whether (px, py) lies in the axis-aligned rectangle at (x, y) of size w x h.
pub open spec fn in_rect(px: int, py: int, x: int, y: int, w: int, h: int) -> bool {
    x <= px < x + w && y <= py < y + h
}

/// Two canvases have the same width, height and buffer length.
pub open spec fn same_shape(a: &Canvas, b: &Canvas) -> bool {
    a.width == b.width && a.height == b.height && a.buffer@.len() == b.buffer@.len()
}

/// Distinct pixel positions occupy distinct row-major cells.
pub(crate) proof fn lemma_row_major_ne(w: int, x1: int, y1: int, x2: int, y2: int)
    requires
        0 <= x1 < w,
        0 <= x2 < w,
        0 <= y1,
        0 <= y2,
        x1 != x2 || y1 != y2,
    ensures
        y1 * w + x1 != y2 * w + x2,
{
    if y1 < y2 {
        assert(y1 * w + x1 < (y1 + 1) * w) by (nonlinear_arith)
            requires
                x1 < w,
        ;
        assert((y1 + 1) * w <= y2 * w) by (nonlinear_arith)
            requires
                y1 + 1 <= y2,
                w > 0,
        ;
    } else if y2 < y1 {
        assert(y2 * w + x2 < (y2 + 1) * w) by (nonlinear_arith)
            requires
                x2 < w,
        ;
        assert((y2 + 1) * w <= y1 * w) by (nonlinear_arith)
            requires
                y2 + 1 <= y1,
                w > 0,
        ;
    }
}

/// A pixel inside the bounds occupies bytes strictly inside the buffer.
pub(crate) proof fn lemma_pix_idx_bounds(w: int, h: int, px: int, py: int)
    requires
        0 <= px < w,
        0 <= py < h,
    ensures
        0 <= pix_idx(w, px, py),
        pix_idx(w, px, py) + 3 < 4 * (w * h),
        py * w <= py * w + px < w * h,
{
    assert(0 <= py * w + px && py * w + px < w * h) by (nonlinear_arith)
        requires
            0 <= px < w,
            0 <= py < h,
    ;
}

/// A raster surface owning its pixel buffer for the duration of a frame.
/// Pixels are stored row-major, four bytes each, in B, G, R, A order.
pub struct Canvas {
    pub buffer: Vec<u8>,
    pub width: u32,
    pub height: u32,
}

impl Canvas {
    /// The buffer holds exactly four bytes per pixel, and the dimensions
    /// stay within the signed coordinate range of the primitives.
    pub open spec fn wf(&self) -> bool {
        &&& self.buffer@.len() == 4 * ((self.width as int) * (self.height as int))
        &&& self.width <= 0x7fff_ffff
        &&& self.height <= 0x7fff_ffff
    }

    /// The stored bytes of pixel (px, py), in (B, G, R, A) order.
    pub open spec fn pixel(&self, px: int, py: int) -> (u8, u8, u8, u8) {
        pixel_at(self.buffer@, self.width as int, px, py)
    }

    /// Whether (px, py) is a pixel position inside this canvas.
    pub open spec fn in_bounds(&self, px: int, py: int) -> bool {
        0 <= px < self.width as int && 0 <= py < self.height as int
    }

    /// Binds a canvas to a caller-supplied pixel buffer of the given size.
    pub fn new(buffer: Vec<u8>, width: u32, height: u32) -> (c: Canvas)
        requires
            buffer@.len() == 4 * ((width as int) * (height as int)),
            width <= 0x7fff_ffff,
            height <= 0x7fff_ffff,
        ensures
            c.wf(),
            c.width == width,
            c.height == height,
            c.buffer@ == buffer@,
    {
        Canvas { buffer, width, height }
    }

    /// Width in pixels.
    pub fn width(&self) -> (w: u32)
        ensures
            w == self.width,
    {
        self.width
    }

    /// Height in pixels.
    pub fn height(&self) -> (h: u32)
        ensures
            h == self.height,
    {
        self.height
    }

    /// Releases the canvas and hands the pixel buffer back to the caller.
    pub fn into_buffer(self) -> (buf: Vec<u8>)
        ensures
            buf@ == self.buffer@,
    {
        self.buffer
    }

    /// Byte offset of a pixel known to be in bounds.
    fn pix_offset(&self, x: u32, y: u32) -> (off: usize)
        requires
            self.wf(),
            x < self.width,
            y < self.height,
        ensures
            off == pix_idx(self.width as int, x as int, y as int),
            off + 3 < self.buffer@.len(),
    {
        proof {
            lemma_pix_idx_bounds(
                self.width as int,
                self.height as int,
                x as int,
                y as int,
            );
        }
        let blen: usize = self.buffer.len();
        let w: usize = self.width as usize;
        ((y as usize) * w + (x as usize)) * 4
    }

    /// Reads back the stored bytes of one pixel, in (B, G, R, A) order.
    pub fn get_pixel(&self, x: u32, y: u32) -> (p: (u8, u8, u8, u8))
        requires
            self.wf(),
            x < self.width,
            y < self.height,
        ensures
            p == self.pixel(x as int, y as int),
    {
        let off: usize = self.pix_offset(x, y);
        (self.buffer[off], self.buffer[off + 1], self.buffer[off + 2], self.buffer[off + 3])
    }

    /// Overwrites one pixel with the color's four channels, ignoring the
    /// destination's contents. Out-of-bounds coordinates are skipped.
    pub fn set_pixel(&mut self, x: i32, y: i32, color: Color)
        requires
            old(self).wf(),
        ensures
            final(self).wf(),
            same_shape(old(self), final(self)),
            forall|px: int, py: int|
                old(self).in_bounds(px, py) ==> #[trigger] final(self).pixel(px, py) == (
                if px == x as int && py == y as int {
                    stored_pixel(color)
                } else {
                    old(self).pixel(px, py)
                }),
            !old(self).in_bounds(x as int, y as int) ==> final(self).buffer@ == old(
                self,
            ).buffer@,
    {
        if x < 0 || y < 0 || x >= self.width as i32 || y >= self.height as i32 {
            return ;
        }
        let off: usize = self.pix_offset(x as u32, y as u32);
        self.buffer[off] = color.b;
        self.buffer[off + 1] = color.g;
        self.buffer[off + 2] = color.r;
        self.buffer[off + 3] = color.a;
        proof {
            let wi = self.width as int;
            assert forall|px: int, py: int|
                old(self).in_bounds(px, py) implies #[trigger] self.pixel(px, py) == (
            if px == x as int && py == y as int {
                stored_pixel(color)
            } else {
                old(self).pixel(px, py)
            }) by {
                lemma_pix_idx_bounds(wi, self.height as int, px, py);
                if px != x as int || py != y as int {
                    lemma_row_major_ne(wi, px, py, x as int, y as int);
                }
            }
        }
    }

    /// Alpha-blends a color into one pixel by source-over compositing in
    /// 8-bit fixed point. The destination alpha byte is left unchanged.
    /// Out-of-bounds coordinates are skipped.
    pub fn blend_pixel(&mut self, x: i32, y: i32, color: Color)
        requires
            old(self).wf(),
        ensures
            final(self).wf(),
            same_shape(old(self), final(self)),
            forall|px: int, py: int|
                old(self).in_bounds(px, py) ==> #[trigger] final(self).pixel(px, py) == (
                if px == x as int && py == y as int {
                    blended_pixel(old(self).pixel(px, py), color)
                } else {
                    old(self).pixel(px, py)
                }),
            !old(self).in_bounds(x as int, y as int) ==> final(self).buffer@ == old(
                self,
            ).buffer@,
    {
        if x < 0 || y < 0 || x >= self.width as i32 || y >= self.height as i32 {
            return ;
        }
        let off: usize = self.pix_offset(x as u32, y as u32);
        let a: u32 = color.a as u32;
        let ia: u32 = 255 - a;
        let db: u32 = self.buffer[off] as u32;
        let dg: u32 = self.buffer[off + 1] as u32;
        let dr: u32 = self.buffer[off + 2] as u32;
        let sb: u32 = color.b as u32;
        let sg: u32 = color.g as u32;
        let sr: u32 = color.r as u32;
        proof {
            assert(db * ia + sb * a <= 255 * 255 && dg * ia + sg * a <= 255 * 255 && dr * ia + sr
                * a <= 255 * 255) by (nonlinear_arith)
                requires
                    db <= 255,
                    dg <= 255,
                    dr <= 255,
                    sb <= 255,
                    sg <= 255,
                    sr <= 255,
                    ia + a == 255,
            ;
        }
        let nb: u8 = ((db * ia + sb * a) / 255) as u8;
        let ng: u8 = ((dg * ia + sg * a) / 255) as u8;
        let nr: u8 = ((dr * ia + sr * a) / 255) as u8;
        self.buffer[off] = nb;
        self.buffer[off + 1] = ng;
        self.buffer[off + 2] = nr;
        proof {
            let wi = self.width as int;
            assert forall|px: int, py: int|
                old(self).in_bounds(px, py) implies #[trigger] self.pixel(px, py) == (
            if px == x as int && py == y as int {
                blended_pixel(old(self).pixel(px, py), color)
            } else {
                old(self).pixel(px, py)
            }) by {
                lemma_pix_idx_bounds(wi, self.height as int, px, py);
                if px != x as int || py != y as int {
                    lemma_row_major_ne(wi, px, py, x as int, y as int);
                }
            }
        }
    }

    /// Alpha-blends a color into one pixel with the same integer source-over
    /// arithmetic as `blend_pixel`; the variant kept for premultiplied-style
    /// call sites.
    pub fn blend_pixel_premul(&mut self, x: i32, y: i32, color: Color)
        requires
            old(self).wf(),
        ensures
            final(self).wf(),
            same_shape(old(self), final(self)),
            forall|px: int, py: int|
                old(self).in_bounds(px, py) ==> #[trigger] final(self).pixel(px, py) == (
                if px == x as int && py == y as int {
                    blended_pixel(old(self).pixel(px, py), color)
                } else {
                    old(self).pixel(px, py)
                }),
            !old(self).in_bounds(x as int, y as int) ==> final(self).buffer@ == old(
                self,
            ).buffer@,
    {
        self.blend_pixel(x, y, color)
    }

    /// Overwrites every pixel of the canvas with one color.
    pub fn clear(&mut self, color: Color)
        requires
            old(self).wf(),
        ensures
            final(self).wf(),
            same_shape(old(self), final(self)),
            forall|px: int, py: int|
                old(self).in_bounds(px, py) ==> #[trigger] final(self).pixel(px, py)
                    == stored_pixel(color),
    {
        let h: u32 = self.height;
        let w: u32 = self.width;
        let mut y: u32 = 0;
        while y < h
            invariant
                self.wf(),
                same_shape(old(self), self),
                w == self.width,
                h == self.height,
                y <= h,
                forall|px: int, py: int|
                    old(self).in_bounds(px, py) ==> #[trigger] self.pixel(px, py) == (
                    if py < y as int {
                        stored_pixel(color)
                    } else {
                        old(self).pixel(px, py)
                    }),
            decreases h - y,
        {
            let mut x: u32 = 0;
            while x < w
                invariant
                    self.wf(),
                    same_shape(old(self), self),
                    w == self.width,
                    h == self.height,
                    x <= w,
                    y < h,
                    forall|px: int, py: int|
                        old(self).in_bounds(px, py) ==> #[trigger] self.pixel(px, py) == (
                        if py < y as int || (py == y as int && px < x as int) {
                            stored_pixel(color)
                        } else {
                            old(self).pixel(px, py)
                        }),
                decreases w - x,
            {
                self.set_pixel(x as i32, y as i32, color);
                x = x + 1;
            }
            y = y + 1;
        }
    }

    /// Unconditionally overwrites every pixel of the given rectangle that
    /// lies inside the canvas; pixels outside the canvas are skipped.
    pub fn fill_rect(&mut self, x: i32, y: i32, width: i32, height: i32, color: Color)
        requires
            old(self).wf(),
            x as int + width as int <= i32::MAX as int,
            y as int + height as int <= i32::MAX as int,
        ensures
            final(self).wf(),
            same_shape(old(self), final(self)),
            forall|px: int, py: int|
                old(self).in_bounds(px, py) ==> #[trigger] final(self).pixel(px, py) == (
                if in_rect(px, py, x as int, y as int, width as int, height as int) {
                    stored_pixel(color)
                } else {
                    old(self).pixel(px, py)
                }),
    {
        if width <= 0 || height <= 0 {
            return ;
        }
        let y_end: i32 = y + height;
        let x_end: i32 = x + width;
        let mut py: i32 = y;
        while py < y_end
            invariant
                self.wf(),
                same_shape(old(self), self),
                y <= py <= y_end,
                y_end == y as int + height as int,
                x_end == x as int + width as int,
                x < x_end,
                forall|qx: int, qy: int|
                    old(self).in_bounds(qx, qy) ==> #[trigger] self.pixel(qx, qy) == (
                    if in_rect(qx, qy, x as int, y as int, width as int, height as int) && qy
                        < py as int {
                        stored_pixel(color)
                    } else {
                        old(self).pixel(qx, qy)
                    }),
            decreases y_end - py,
        {
            let mut px: i32 = x;
            while px < x_end
                invariant
                    self.wf(),
                    same_shape(old(self), self),
                    x <= px <= x_end,
                    y <= py < y_end,
                    y_end == y as int + height as int,
                    x_end == x as int + width as int,
                    forall|qx: int, qy: int|
                        old(self).in_bounds(qx, qy) ==> #[trigger] self.pixel(qx, qy) == (
                        if in_rect(qx, qy, x as int, y as int, width as int, height as int) && (qy
                            < py as int || (qy == py as int && qx < px as int)) {
                            stored_pixel(color)
                        } else {
                            old(self).pixel(qx, qy)
                        }),
                decreases x_end - px,
            {
                self.set_pixel(px, py, color);
                px = px + 1;
            }
            py = py + 1;
        }
    }

    /// Whether (px, py) lies on the outline of the given rectangle drawn
    /// with the given stroke thickness: the union of the four strips the
    /// outline is built from.
    pub open spec fn on_outline(
        px: int,
        py: int,
        x: int,
        y: int,
        w: int,
        h: int,
        t: int,
    ) -> bool {
        ||| in_rect(px, py, x, y, w, t)
        ||| in_rect(px, py, x, y + h - t, w, t)
        ||| in_rect(px, py, x, y, t, h)
        ||| in_rect(px, py, x + w - t, y, t, h)
    }

    /// Draws a rectangle outline as four filled strips (top, bottom, left,
    /// right) of the given thickness.
    pub fn draw_rect(&mut self, x: i32, y: i32, width: i32, height: i32, color: Color, thickness: i32)
        requires
            old(self).wf(),
            0 <= thickness,
            thickness as int <= width as int,
            thickness as int <= height as int,
            x as int + width as int <= i32::MAX as int,
            y as int + height as int <= i32::MAX as int,
        ensures
            final(self).wf(),
            same_shape(old(self), final(self)),
            forall|px: int, py: int|
                old(self).in_bounds(px, py) ==> #[trigger] final(self).pixel(px, py) == (
                if Self::on_outline(
                    px,
                    py,
                    x as int,
                    y as int,
                    width as int,
                    height as int,
                    thickness as int,
                ) {
                    stored_pixel(color)
                } else {
                    old(self).pixel(px, py)
                }),
    {
        // Top
        self.fill_rect(x, y, width, thickness, color);
        // Bottom
        self.fill_rect(x, y + height - thickness, width, thickness, color);
        // Left
        self.fill_rect(x, y, thickness, height, color);
        // Right
        self.fill_rect(x + width - thickness, y, thickness, height, color);
    }
}

/// The gradient parameter at local pixel (lx, ly) of a w x h region, in
/// 1/1024 units: the centered normalized position projected onto the
/// direction vector (cos, sin), shifted by one half and clamped to [0, 1].
pub open spec fn gradient_t(lx: int, ly: int, w: int, h: int, cos_q: int, sin_q: int) -> int {
    let nx = (lx * 1024) / w - 512;
    let ny = (ly * 1024) / h - 512;
    let num = nx * cos_q + ny * sin_q + 512 * 1024;
    if num < 0 {
        0
    } else if num / 1024 > 1024 {
        1024
    } else {
        num / 1024
    }
}

/// Linear interpolation of one 8-bit channel at parameter `t` in 1/1024 units.
pub open spec fn lerp_channel(s: u8, e: u8, t: int) -> u8 {
    (((s as int) * (1024 - t) + (e as int) * t) / 1024) as u8
}

/// Channel-wise linear interpolation of two colors at parameter `t`.
pub open spec fn gradient_color(start: Color, end: Color, t: int) -> Color {
    Color {
        r: lerp_channel(start.r, end.r, t),
        g: lerp_channel(start.g, end.g, t),
        b: lerp_channel(start.b, end.b, t),
        a: lerp_channel(start.a, end.a, t),
    }
}

/// The color of local pixel (lx, ly) of a linear gradient over a w x h
/// region at the given angle in whole degrees.
pub open spec fn gradient_pixel(
    start: Color,
    end: Color,
    angle_deg: int,
    lx: int,
    ly: int,
    w: int,
    h: int,
) -> Color {
    gradient_color(
        start,
        end,
        gradient_t(
            lx,
            ly,
            w,
            h,
            crate::fixed::cos_deg_spec(angle_deg),
            crate::fixed::sin_deg_spec(angle_deg),
        ),
    )
}

/// Executable gradient parameter, equal to `gradient_t`.
fn gradient_param(lx: i32, ly: i32, w: i32, h: i32, cos_q: i64, sin_q: i64) -> (t: i64)
    requires
        0 <= lx < w,
        0 <= ly < h,
        -1024 <= cos_q <= 1024,
        -1024 <= sin_q <= 1024,
    ensures
        t == gradient_t(lx as int, ly as int, w as int, h as int, cos_q as int, sin_q as int),
        0 <= t <= 1024,
{
    proof {
        vstd::arithmetic::div_mod::lemma_div_pos_is_pos(lx as int * 1024, w as int);
        assert(lx as int * 1024 < w as int * 1024);
        vstd::arithmetic::div_mod::lemma_multiply_divide_lt(lx as int * 1024, w as int, 1024);
        vstd::arithmetic::div_mod::lemma_div_pos_is_pos(ly as int * 1024, h as int);
        assert(ly as int * 1024 < h as int * 1024);
        vstd::arithmetic::div_mod::lemma_multiply_divide_lt(ly as int * 1024, h as int, 1024);
    }
    let nx: i64 = ((lx as i64) * 1024) / (w as i64) - 512;
    let ny: i64 = ((ly as i64) * 1024) / (h as i64) - 512;
    proof {
        assert(-512 * 1024 <= nx * cos_q <= 512 * 1024 && -512 * 1024 <= ny * sin_q <= 512
            * 1024) by (nonlinear_arith)
            requires
                -512 <= nx <= 512,
                -512 <= ny <= 512,
                -1024 <= cos_q <= 1024,
                -1024 <= sin_q <= 1024,
        ;
    }
    let num: i64 = nx * cos_q + ny * sin_q + 512 * 1024;
    if num < 0 {
        0
    } else {
        proof {
            vstd::arithmetic::div_mod::lemma_div_pos_is_pos(num as int, 1024);
        }
        let q: i64 = num / 1024;
        if q > 1024 {
            1024
        } else {
            q
        }
    }
}

/// Executable channel interpolation, equal to `lerp_channel`.
fn lerp_ch(s: u8, e: u8, t: i64) -> (r: u8)
    requires
        0 <= t <= 1024,
    ensures
        r == lerp_channel(s, e, t as int),
{
    proof {
        assert((s as int) * (1024 - t as int) + (e as int) * (t as int) <= 255
            * 1024) by (nonlinear_arith)
            requires
                s <= 255,
                e <= 255,
                0 <= t as int <= 1024,
        ;
        assert((s as int) * (1024 - t as int) + (e as int) * (t as int) >= 0) by (nonlinear_arith)
            requires
                0 <= t as int <= 1024,
        ;
    }
    let v: i64 = ((s as i64) * (1024 - t) + (e as i64) * t) / 1024;
    v as u8
}

impl Canvas {
    /// Fills a rectangle with a linear gradient: every pixel is the
    /// channel-wise interpolation of the two colors at the parameter given
    /// by projecting its centered normalized position onto the angle's
    /// direction vector. Pixels outside the canvas are skipped.
    pub fn fill_gradient_rect(
        &mut self,
        x: i32,
        y: i32,
        width: i32,
        height: i32,
        start_color: Color,
        end_color: Color,
        angle_deg: i32,
    )
        requires
            old(self).wf(),
            x as int + width as int <= i32::MAX as int,
            y as int + height as int <= i32::MAX as int,
        ensures
            final(self).wf(),
            same_shape(old(self), final(self)),
            forall|qx: int, qy: int|
                old(self).in_bounds(qx, qy) ==> #[trigger] final(self).pixel(qx, qy) == (
                if in_rect(qx, qy, x as int, y as int, width as int, height as int) {
                    stored_pixel(
                        gradient_pixel(
                            start_color,
                            end_color,
                            angle_deg as int,
                            qx - x as int,
                            qy - y as int,
                            width as int,
                            height as int,
                        ),
                    )
                } else {
                    old(self).pixel(qx, qy)
                }),
    {
        if width <= 0 || height <= 0 {
            return ;
        }
        let cos_q: i64 = crate::fixed::cos_deg(angle_deg);
        let sin_q: i64 = crate::fixed::sin_deg(angle_deg);
        let mut ly: i32 = 0;
        while ly < height
            invariant
                self.wf(),
                same_shape(old(self), self),
                0 <= ly <= height,
                0 < width,
                0 < height,
                x as int + width as int <= i32::MAX as int,
                y as int + height as int <= i32::MAX as int,
                cos_q == crate::fixed::cos_deg_spec(angle_deg as int),
                sin_q == crate::fixed::sin_deg_spec(angle_deg as int),
                -1024 <= cos_q <= 1024,
                -1024 <= sin_q <= 1024,
                forall|qx: int, qy: int|
                    old(self).in_bounds(qx, qy) ==> #[trigger] self.pixel(qx, qy) == (
                    if in_rect(qx, qy, x as int, y as int, width as int, height as int) && qy - y
                        < ly as int {
                        stored_pixel(
                            gradient_pixel(
                                start_color,
                                end_color,
                                angle_deg as int,
                                qx - x as int,
                                qy - y as int,
                                width as int,
                                height as int,
                            ),
                        )
                    } else {
                        old(self).pixel(qx, qy)
                    }),
            decreases height - ly,
        {
            let mut lx: i32 = 0;
            while lx < width
                invariant
                    self.wf(),
                    same_shape(old(self), self),
                    0 <= lx <= width,
                    0 <= ly < height,
                    0 < width,
                    0 < height,
                    x as int + width as int <= i32::MAX as int,
                    y as int + height as int <= i32::MAX as int,
                    cos_q == crate::fixed::cos_deg_spec(angle_deg as int),
                    sin_q == crate::fixed::sin_deg_spec(angle_deg as int),
                    -1024 <= cos_q <= 1024,
                    -1024 <= sin_q <= 1024,
                    forall|qx: int, qy: int|
                        old(self).in_bounds(qx, qy) ==> #[trigger] self.pixel(qx, qy) == (
                        if in_rect(qx, qy, x as int, y as int, width as int, height as int) && (qy
                            - y < ly as int || (qy - y == ly as int && qx - x < lx as int)) {
                            stored_pixel(
                                gradient_pixel(
                                    start_color,
                                    end_color,
                                    angle_deg as int,
                                    qx - x as int,
                                    qy - y as int,
                                    width as int,
                                    height as int,
                                ),
                            )
                        } else {
                            old(self).pixel(qx, qy)
                        }),
                decreases width - lx,
            {
                let t: i64 = gradient_param(lx, ly, width, height, cos_q, sin_q);
                let c = Color {
                    r: lerp_ch(start_color.r, end_color.r, t),
                    g: lerp_ch(start_color.g, end_color.g, t),
                    b: lerp_ch(start_color.b, end_color.b, t),
                    a: lerp_ch(start_color.a, end_color.a, t),
                };
                self.set_pixel(x + lx, y + ly, c);
                lx = lx + 1;
            }
            ly = ly + 1;
        }
    }
}

/// Squared Euclidean distance from a corner-square offset (dx, dy) to the
/// corner circle center (ex, ey).
pub open spec fn corner_d2(dx: int, dy: int, ex: int, ey: int) -> int {
    (dx - ex) * (dx - ex) + (dy - ey) * (dy - ey)
}

/// Whether a squared distance falls in the anti-aliasing band at a corner of
/// the given radius: distance greater than radius minus 1.5 pixels, stated
/// on squares to stay in integers.
pub open spec fn in_aa_band(d2: int, r: int) -> bool {
    2 * r - 3 < 0 || 4 * d2 > (2 * r - 3) * (2 * r - 3)
}

/// Anti-aliased coverage of a corner pixel: the distance shortfall
/// `radius - distance` scaled to 255 and clamped, then scaled by the color's
/// own alpha. The distance is carried in 1/256 units.
pub open spec fn corner_alpha(d2: int, r: int, a: u8) -> u8 {
    let dist_fp = sqrt_floor((d2 * 65536) as nat) as int;
    let a1 = clamp_int(((r * 256 - dist_fp) * 255) / 256, 0, 255);
    ((a1 * a as int) / 255) as u8
}

/// The value a corner-square pixel takes when one rounded corner is drawn:
/// unchanged outside the quarter disc, overwritten inside it, and
/// alpha-blended in the anti-aliasing band at its edge.
pub open spec fn corner_pixel(
    p: (u8, u8, u8, u8),
    dx: int,
    dy: int,
    r: int,
    ex: int,
    ey: int,
    c: Color,
) -> (u8, u8, u8, u8) {
    if 0 <= dx < r && 0 <= dy < r {
        let d2 = corner_d2(dx, dy, ex, ey);
        if d2 <= r * r {
            if in_aa_band(d2, r) {
                blended_pixel(p, Color { r: c.r, g: c.g, b: c.b, a: corner_alpha(d2, r, c.a) })
            } else {
                stored_pixel(c)
            }
        } else {
            p
        }
    } else {
        p
    }
}

/// The value each pixel takes when a rounded rectangle is filled: the
/// non-corner cross is overwritten, each corner square follows its quarter
/// disc, everything else is unchanged.
pub open spec fn rounded_rect_pixel(
    p: (u8, u8, u8, u8),
    qx: int,
    qy: int,
    x: int,
    y: int,
    w: int,
    h: int,
    r: int,
    c: Color,
) -> (u8, u8, u8, u8) {
    if in_rect(qx, qy, x + r, y, w - 2 * r, h) || in_rect(qx, qy, x, y + r, w, h - 2 * r) {
        stored_pixel(c)
    } else if in_rect(qx, qy, x, y, r, r) {
        corner_pixel(p, qx - x, qy - y, r, r, r, c)
    } else if in_rect(qx, qy, x + w - r, y, r, r) {
        corner_pixel(p, qx - (x + w - r), qy - y, r, 0, r, c)
    } else if in_rect(qx, qy, x, y + h - r, r, r) {
        corner_pixel(p, qx - x, qy - (y + h - r), r, r, 0, c)
    } else if in_rect(qx, qy, x + w - r, y + h - r, r, r) {
        corner_pixel(p, qx - (x + w - r), qy - (y + h - r), r, 0, 0, c)
    } else {
        p
    }
}

impl Canvas {
    /// Draws one rounded corner: every pixel of the r x r corner square at
    /// (corner_x, corner_y) is classified by its distance to the circle
    /// center (corner_x + ex, corner_y + ey).
    fn fill_corner(&mut self, corner_x: i32, corner_y: i32, ex: i32, ey: i32, radius: i32, color: Color)
        requires
            old(self).wf(),
            0 <= radius <= 0x40_0000,
            0 <= ex <= radius,
            0 <= ey <= radius,
            corner_x as int + radius as int <= i32::MAX as int,
            corner_y as int + radius as int <= i32::MAX as int,
        ensures
            final(self).wf(),
            same_shape(old(self), final(self)),
            forall|qx: int, qy: int|
                old(self).in_bounds(qx, qy) ==> #[trigger] final(self).pixel(qx, qy)
                    == corner_pixel(
                    old(self).pixel(qx, qy),
                    qx - corner_x as int,
                    qy - corner_y as int,
                    radius as int,
                    ex as int,
                    ey as int,
                    color,
                ),
    {
        let mut dy: i32 = 0;
        while dy < radius
            invariant
                self.wf(),
                same_shape(old(self), self),
                0 <= dy <= radius,
                radius <= 0x40_0000,
                0 <= ex <= radius,
                0 <= ey <= radius,
                corner_x as int + radius as int <= i32::MAX as int,
                corner_y as int + radius as int <= i32::MAX as int,
                forall|qx: int, qy: int|
                    old(self).in_bounds(qx, qy) ==> #[trigger] self.pixel(qx, qy) == (
                    if qy - corner_y < dy as int {
                        corner_pixel(
                            old(self).pixel(qx, qy),
                            qx - corner_x as int,
                            qy - corner_y as int,
                            radius as int,
                            ex as int,
                            ey as int,
                            color,
                        )
                    } else {
                        old(self).pixel(qx, qy)
                    }),
            decreases radius - dy,
        {
            let mut dx: i32 = 0;
            while dx < radius
                invariant
                    self.wf(),
                    same_shape(old(self), self),
                    0 <= dx <= radius,
                    0 <= dy < radius,
                    radius <= 0x40_0000,
                    0 <= ex <= radius,
                    0 <= ey <= radius,
                    corner_x as int + radius as int <= i32::MAX as int,
                    corner_y as int + radius as int <= i32::MAX as int,
                    forall|qx: int, qy: int|
                        old(self).in_bounds(qx, qy) ==> #[trigger] self.pixel(qx, qy) == (
                        if qy - corner_y < dy as int || (qy - corner_y == dy as int && qx - corner_x
                            < dx as int) {
                            corner_pixel(
                                old(self).pixel(qx, qy),
                                qx - corner_x as int,
                                qy - corner_y as int,
                                radius as int,
                                ex as int,
                                ey as int,
                                color,
                            )
                        } else {
                            old(self).pixel(qx, qy)
                        }),
                decreases radius - dx,
            {
                proof {
                    assert((dx - ex) as int * ((dx - ex) as int) + (dy - ey) as int * ((dy
                        - ey) as int) <= 2 * (0x40_0000 * 0x40_0000)) by (nonlinear_arith)
                        requires
                            -0x40_0000 <= (dx - ex) as int <= 0x40_0000,
                            -0x40_0000 <= (dy - ey) as int <= 0x40_0000,
                    ;
                    assert(0 <= (dx - ex) as int * ((dx - ex) as int) && 0 <= (dy - ey) as int * ((
                    dy - ey) as int)) by (nonlinear_arith);
                }
                let ddx: i64 = (dx - ex) as i64;
                let ddy: i64 = (dy - ey) as i64;
                let d2: i64 = ddx * ddx + ddy * ddy;
                proof {
                    assert(radius as int * (radius as int) <= 0x40_0000 * 0x40_0000
                        && 0 <= radius as int * (radius as int)) by (nonlinear_arith)
                        requires
                            0 <= radius as int <= 0x40_0000,
                    ;
                }
                let r2: i64 = (radius as i64) * (radius as i64);
                if d2 <= r2 {
                    let m: i64 = 2 * (radius as i64) - 3;
                    let aa: bool = m < 0 || {
                        proof {
                            assert(m * m <= 0x80_0000 * 0x80_0000) by (nonlinear_arith)
                                requires
                                    0 <= m <= 0x80_0000,
                            ;
                        }
                        4 * d2 > m * m
                    };
                    if aa {
                        proof {
                            assert(d2 as int * 65536 <= (256 * radius as int) * (256
                                * radius as int)) by (nonlinear_arith)
                                requires
                                    0 <= d2 as int <= radius as int * (radius as int),
                                    0 <= radius,
                            ;
                            crate::fixed::lemma_sqrt_floor_le(
                                (d2 * 65536) as nat,
                                (256 * radius as int) as nat,
                            );
                        }
                        let dist_fp: u64 = crate::fixed::isqrt((d2 as u64) * 65536);
                        let a1: i64 = {
                            let raw: i64 = (((radius as i64) * 256 - (dist_fp as i64)) * 255) / 256;
                            if raw < 0 {
                                0
                            } else if raw > 255 {
                                255
                            } else {
                                raw
                            }
                        };
                        proof {
                            assert(0 <= a1 * (color.a as int) <= 255 * 255) by (nonlinear_arith)
                                requires
                                    0 <= a1 <= 255,
                                    0 <= color.a as int <= 255,
                            ;
                        }
                        let aa_alpha: u8 = ((a1 * (color.a as i64)) / 255) as u8;
                        let aac = Color { r: color.r, g: color.g, b: color.b, a: aa_alpha };
                        self.blend_pixel(corner_x + dx, corner_y + dy, aac);
                    } else {
                        self.set_pixel(corner_x + dx, corner_y + dy, color);
                    }
                }
                dx = dx + 1;
            }
            dy = dy + 1;
        }
    }

    /// Fills a rounded rectangle: the non-corner cross exactly, then each of
    /// the four corner squares by Euclidean distance to its corner center,
    /// with a 1.5-pixel linearly scaled anti-aliasing band at the edge.
    pub fn fill_rounded_rect(
        &mut self,
        x: i32,
        y: i32,
        width: i32,
        height: i32,
        radius: i32,
        color: Color,
    )
        requires
            old(self).wf(),
            0 <= radius <= 0x40_0000,
            2 * radius as int <= width as int,
            2 * radius as int <= height as int,
            x as int + width as int <= i32::MAX as int,
            y as int + height as int <= i32::MAX as int,
        ensures
            final(self).wf(),
            same_shape(old(self), final(self)),
            forall|qx: int, qy: int|
                old(self).in_bounds(qx, qy) ==> #[trigger] final(self).pixel(qx, qy)
                    == rounded_rect_pixel(
                    old(self).pixel(qx, qy),
                    qx,
                    qy,
                    x as int,
                    y as int,
                    width as int,
                    height as int,
                    radius as int,
                    color,
                ),
    {
        // Fill the non-corner cross.
        self.fill_rect(x + radius, y, width - radius * 2, height, color);
        self.fill_rect(x, y + radius, width, height - radius * 2, color);
        // Draw the four corners.
        self.fill_corner(x, y, radius, radius, radius, color);
        self.fill_corner(x + width - radius, y, 0, radius, radius, color);
        self.fill_corner(x, y + height - radius, radius, 0, radius, color);
        self.fill_corner(x + width - radius, y + height - radius, 0, 0, radius, color);
    }
}

/// The pixels integer Bresenham stepping visits on its way from (x, y)
/// toward (x2, y2), carrying the error term; `fuel` bounds the walk, and is
/// chosen large enough at the top level that it never runs out before the
/// end point.
pub open spec fn bres_points(
    x: int,
    y: int,
    x2: int,
    y2: int,
    dx: int,
    dy: int,
    sx: int,
    sy: int,
    err: int,
    fuel: nat,
) -> Seq<(int, int)>
    decreases fuel,
{
    if x == x2 && y == y2 {
        seq![(x, y)]
    } else if fuel == 0 {
        seq![(x, y)]
    } else {
        let e2 = 2 * err;
        let nx = if e2 > -dy {
            x + sx
        } else {
            x
        };
        let e1 = if e2 > -dy {
            err - dy
        } else {
            err
        };
        let ny = if e2 < dx {
            y + sy
        } else {
            y
        };
        let e3 = if e2 < dx {
            e1 + dx
        } else {
            e1
        };
        seq![(x, y)] + bres_points(nx, ny, x2, y2, dx, dy, sx, sy, e3, (fuel - 1) as nat)
    }
}

/// The pixels of the line from (x1, y1) to (x2, y2): Bresenham stepping with
/// its usual initial error `dx - dy` and enough fuel for the whole walk.
pub open spec fn line_points(x1: int, y1: int, x2: int, y2: int) -> Seq<(int, int)> {
    let dx = if x2 >= x1 {
        x2 - x1
    } else {
        x1 - x2
    };
    let dy = if y2 >= y1 {
        y2 - y1
    } else {
        y1 - y2
    };
    let sx: int = if x1 < x2 {
        1
    } else {
        -1
    };
    let sy: int = if y1 < y2 {
        1
    } else {
        -1
    };
    bres_points(x1, y1, x2, y2, dx, dy, sx, sy, dx - dy, (dx + dy) as nat)
}

impl Canvas {
    /// Draws a straight line by integer Bresenham stepping, without
    /// anti-aliasing. Points outside the canvas are skipped.
    pub fn draw_line(&mut self, x1: i32, y1: i32, x2: i32, y2: i32, color: Color)
        requires
            old(self).wf(),
        ensures
            final(self).wf(),
            same_shape(old(self), final(self)),
            forall|qx: int, qy: int|
                old(self).in_bounds(qx, qy) ==> #[trigger] final(self).pixel(qx, qy) == (
                if line_points(x1 as int, y1 as int, x2 as int, y2 as int).contains((qx, qy)) {
                    stored_pixel(color)
                } else {
                    old(self).pixel(qx, qy)
                }),
    {
        let dxv: i64 = if x2 >= x1 {
            x2 as i64 - x1 as i64
        } else {
            x1 as i64 - x2 as i64
        };
        let dyv: i64 = if y2 >= y1 {
            y2 as i64 - y1 as i64
        } else {
            y1 as i64 - y2 as i64
        };
        let sxv: i64 = if x1 < x2 {
            1
        } else {
            -1
        };
        let syv: i64 = if y1 < y2 {
            1
        } else {
            -1
        };
        let mut err: i64 = dxv - dyv;
        let mut px: i64 = x1 as i64;
        let mut py: i64 = y1 as i64;
        let mut fuel: i64 = dxv + dyv;
        let ghost l = line_points(x1 as int, y1 as int, x2 as int, y2 as int);
        let ghost mut k: int = 0;
        loop
            invariant_except_break
                self.wf(),
                same_shape(old(self), self),
                0 <= dxv <= 0x1_0000_0000,
                0 <= dyv <= 0x1_0000_0000,
                sxv == 1 || sxv == -1,
                syv == 1 || syv == -1,
                0 <= fuel <= dxv + dyv,
                -2 * (dxv + dyv) - 2 <= err <= 2 * (dxv + dyv) + 2,
                -0x8000_0000 - (dxv + dyv - fuel) <= px <= 0x8000_0000 + (dxv + dyv - fuel),
                -0x8000_0000 - (dxv + dyv - fuel) <= py <= 0x8000_0000 + (dxv + dyv - fuel),
                0 <= k <= l.len(),
                l == l.take(k) + bres_points(
                    px as int,
                    py as int,
                    x2 as int,
                    y2 as int,
                    dxv as int,
                    dyv as int,
                    sxv as int,
                    syv as int,
                    err as int,
                    fuel as nat,
                ),
                forall|qx: int, qy: int|
                    old(self).in_bounds(qx, qy) ==> #[trigger] self.pixel(qx, qy) == (
                    if exists|i: int| 0 <= i < k && l[i] == (qx, qy) {
                        stored_pixel(color)
                    } else {
                        old(self).pixel(qx, qy)
                    }),
            ensures
                self.wf(),
                same_shape(old(self), self),
                forall|qx: int, qy: int|
                    old(self).in_bounds(qx, qy) ==> #[trigger] self.pixel(qx, qy) == (
                    if l.contains((qx, qy)) {
                        stored_pixel(color)
                    } else {
                        old(self).pixel(qx, qy)
                    }),
            decreases fuel,
        {
            let ghost rest = bres_points(
                px as int,
                py as int,
                x2 as int,
                y2 as int,
                dxv as int,
                dyv as int,
                sxv as int,
                syv as int,
                err as int,
                fuel as nat,
            );
            proof {
                assert(rest.len() >= 1);
                assert(l.len() == k + rest.len());
                assert(rest[0] == (px as int, py as int));
                assert(l[k] == (px as int, py as int));
            }
            if -0x8000_0000i64 <= px && px <= 0x7fff_ffffi64 && -0x8000_0000i64 <= py && py
                <= 0x7fff_ffffi64 {
                self.set_pixel(px as i32, py as i32, color);
            }
            proof {
                k = k + 1;
                assert forall|qx: int, qy: int|
                    old(self).in_bounds(qx, qy) implies #[trigger] self.pixel(qx, qy) == (
                if exists|i: int| 0 <= i < k && l[i] == (qx, qy) {
                    stored_pixel(color)
                } else {
                    old(self).pixel(qx, qy)
                }) by {
                    if qx == px as int && qy == py as int {
                        assert(l[k - 1] == (qx, qy));
                        assert(exists|i: int| 0 <= i < k && l[i] == (qx, qy));
                    } else {
                        if exists|i: int| 0 <= i < k && l[i] == (qx, qy) {
                            let i = choose|i: int| 0 <= i < k && l[i] == (qx, qy);
                            assert(0 <= i < k - 1);
                        }
                    }
                }
            }
            if px == x2 as i64 && py == y2 as i64 {
                proof {
                    assert(rest =~= seq![(px as int, py as int)]);
                    assert(l =~= l.take(k - 1).push(l[k - 1]));
                    assert(l.len() == k);
                    assert forall|qx: int, qy: int| l.contains((qx, qy)) == (exists|i: int|
                        0 <= i < k && l[i] == (qx, qy)) by {}
                }
                break ;
            }
            if fuel == 0 {
                proof {
                    assert(rest =~= seq![(px as int, py as int)]);
                    assert(l =~= l.take(k - 1).push(l[k - 1]));
                    assert(l.len() == k);
                }
                break ;
            }
            let e2: i64 = 2 * err;
            if e2 > -dyv {
                err = err - dyv;
                px = px + sxv;
            }
            if e2 < dxv {
                err = err + dxv;
                py = py + syv;
            }
            fuel = fuel - 1;
            proof {
                assert(rest == seq![(l[k - 1].0, l[k - 1].1)] + bres_points(
                    px as int,
                    py as int,
                    x2 as int,
                    y2 as int,
                    dxv as int,
                    dyv as int,
                    sxv as int,
                    syv as int,
                    err as int,
                    fuel as nat,
                ));
                assert(l.take(k) =~= l.take(k - 1) + seq![l[k - 1]]);
                assert(l =~= l.take(k) + bres_points(
                    px as int,
                    py as int,
                    x2 as int,
                    y2 as int,
                    dxv as int,
                    dyv as int,
                    sxv as int,
                    syv as int,
                    err as int,
                    fuel as nat,
                ));
            }
        }
    }
}

/// The four corner quarter-disc masks of `fill_rounded_rect` are images of
/// one another under reflection: reflecting a top-left offset across the
/// corner square gives a point whose squared distance to the top-right,
/// bottom-left or bottom-right center is identical, so the filled sets and
/// coverage values coincide up to reflection.
pub proof fn lemma_corner_mask_symmetry(dx: int, dy: int, r: int)
    ensures
        corner_d2(dx, dy, r, r) == corner_d2(r - dx, dy, 0, r),
        corner_d2(dx, dy, r, r) == corner_d2(dx, r - dy, r, 0),
        corner_d2(dx, dy, r, r) == corner_d2(r - dx, r - dy, 0, 0),
{
    assert((dx - r) * (dx - r) == (r - dx - 0) * (r - dx - 0)) by (nonlinear_arith);
    assert((dy - r) * (dy - r) == (r - dy - 0) * (r - dy - 0)) by (nonlinear_arith);
}

/// With the gradient axis horizontal, every pixel of the leftmost column of
/// the rectangle sits at parameter 0 and receives the start color exactly,
/// channel for channel.
pub proof fn lemma_gradient_left_edge_is_start(
    start: Color,
    end: Color,
    ly: int,
    w: int,
    h: int,
)
    requires
        0 < w,
        0 < h,
    ensures
        gradient_pixel(start, end, 0, 0, ly, w, h) == start,
{
    assert(90int * (180 - 90) == 8100) by (nonlinear_arith);
    assert(4int * 8100 * 1024 == 33177600) by (nonlinear_arith);
    assert(crate::fixed::half_sin_q(90) == 33177600int / 32400);
    vstd::arithmetic::div_mod::lemma_fundamental_div_mod_converse(33177600, 32400, 1024, 0);
    assert(crate::fixed::cos_deg_spec(0) == 1024);
    assert(0int * (180 - 0) == 0) by (nonlinear_arith);
    assert(crate::fixed::sin_deg_spec(0) == 0) by {
        vstd::arithmetic::div_mod::lemma_div_basics(40500);
        assert(4int * 0 * 1024 == 0) by (nonlinear_arith);
    }
    vstd::arithmetic::div_mod::lemma_div_basics(w);
    assert((0int * 1024) / w == 0);
    let nx = (0int * 1024) / w - 512;
    let ny = (ly * 1024) / h - 512;
    assert(nx * 1024 == -(512 * 1024)) by (nonlinear_arith)
        requires
            nx == -512,
    ;
    assert(ny * 0 == 0) by (nonlinear_arith);
    assert(gradient_t(0, ly, w, h, 1024, 0) == 0) by {
        vstd::arithmetic::div_mod::lemma_div_basics(1024);
    }
    lemma_gradient_start_exact(start, end);
}

/// At parameter 0 the gradient yields the start color, channel for channel,
/// exactly.
pub proof fn lemma_gradient_start_exact(start: Color, end: Color)
    ensures
        gradient_color(start, end, 0) == start,
{
    lemma_lerp_endpoints(start.r, end.r);
    lemma_lerp_endpoints(start.g, end.g);
    lemma_lerp_endpoints(start.b, end.b);
    lemma_lerp_endpoints(start.a, end.a);
}

/// At parameter 1 (1024 in fixed point) the gradient yields the end color,
/// channel for channel, exactly.
pub proof fn lemma_gradient_end_exact(start: Color, end: Color)
    ensures
        gradient_color(start, end, 1024) == end,
{
    lemma_lerp_endpoints(start.r, end.r);
    lemma_lerp_endpoints(start.g, end.g);
    lemma_lerp_endpoints(start.b, end.b);
    lemma_lerp_endpoints(start.a, end.a);
}

/// Channel interpolation is exact at both endpoints.
pub proof fn lemma_lerp_endpoints(s: u8, e: u8)
    ensures
        lerp_channel(s, e, 0) == s,
        lerp_channel(s, e, 1024) == e,
{
    assert((s as int) * (1024 - 0) + (e as int) * 0 == 1024 * (s as int));
    assert((s as int) * (1024 - 1024) + (e as int) * 1024 == 1024 * (e as int));
    vstd::arithmetic::div_mod::lemma_div_multiples_vanish(s as int, 1024);
    vstd::arithmetic::div_mod::lemma_div_multiples_vanish(e as int, 1024);
}

/// Blending a fully opaque color overwrites the three stored color channels
/// with the color's own, exactly; the stored alpha byte is kept.
pub proof fn lemma_blend_opaque(p: (u8, u8, u8, u8), c: Color)
    requires
        c.a == 255,
    ensures
        blended_pixel(p, c) == (c.b, c.g, c.r, p.3),
{
    lemma_blend_channel_opaque(p.0, c.b);
    lemma_blend_channel_opaque(p.1, c.g);
    lemma_blend_channel_opaque(p.2, c.r);
}

/// Blending with alpha 255 returns the source channel exactly.
pub proof fn lemma_blend_channel_opaque(d: u8, s: u8)
    ensures
        blend_channel(d, s, 255) == s,
{
    assert((d as int) * (255 - 255) + (s as int) * 255 == 255 * (s as int));
    vstd::arithmetic::div_mod::lemma_div_multiples_vanish(s as int, 255);
}

/// Blending a fully transparent color leaves the destination pixel
/// bit-for-bit unchanged.
pub proof fn lemma_blend_transparent(p: (u8, u8, u8, u8), c: Color)
    requires
        c.a == 0,
    ensures
        blended_pixel(p, c) == p,
{
    lemma_blend_channel_transparent(p.0, c.b);
    lemma_blend_channel_transparent(p.1, c.g);
    lemma_blend_channel_transparent(p.2, c.r);
}

/// Blending with alpha 0 returns the destination channel exactly.
pub proof fn lemma_blend_channel_transparent(d: u8, s: u8)
    ensures
        blend_channel(d, s, 0) == d,
{
    assert((d as int) * (255 - 0) + (s as int) * 0 == 255 * (d as int));
    vstd::arithmetic::div_mod::lemma_div_multiples_vanish(d as int, 255);
}

} // verus!
