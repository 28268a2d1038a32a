//! The per-pixel shader engine: a context carrying the fragment coordinate,
//! resolution, time and named uniform values; a polymorphic evaluator
//! interface whose exact result is stated by a specification function; a
//! driver that runs an evaluator over every pixel of a target rectangle; and
//! the built-in evaluators.
//!
//! Shader channels are unit-interval values in 1/1024 fixed point
//! (0 is 0.0, 1024 is 1.0); the driver converts them to 8-bit channels.

use crate::canvas::{blended_pixel, in_rect, same_shape, stored_pixel, Canvas};
use crate::color::Color;
use crate::fixed::{
    clamp64, clamp_int, cos_deg, cos_deg_spec, length64, length_q, mix_q, sin_deg, sin_deg_spec,
    smoothstep_q, sqrt_floor,
};
use vstd::prelude::*;

verus! {

/// A shader result color: four channels in 1/1024 units. Values above 1024
/// are clamped when converted to bytes.
#[derive(Debug, Clone, Copy, PartialEq, Eq, Structural)]
pub struct ShaderColor {
    pub r: u16,
    pub g: u16,
    pub b: u16,
    pub a: u16,
}

/// Conversion of a unit-interval fixed-point channel to 8 bits:
/// `v * 255 / 1024`, clamped to a byte.
pub open spec fn to_byte(v: u16) -> u8 {
    clamp_int((v as int) * 255 / 1024, 0, 255) as u8
}

/// The 8-bit color of a shader result.
pub open spec fn color_of(sc: ShaderColor) -> Color {
    Color { r: to_byte(sc.r), g: to_byte(sc.g), b: to_byte(sc.b), a: to_byte(sc.a) }
}

/// Executable channel conversion, equal to `to_byte`.
fn to_byte_exec(v: u16) -> (b: u8)
    ensures
        b == to_byte(v),
{
    proof {
        assert(0 <= (v as int) * 255 <= 0xffff * 255) by (nonlinear_arith)
            requires
                0 <= v as int <= 0xffff,
        ;
        vstd::arithmetic::div_mod::lemma_div_pos_is_pos((v as int) * 255, 1024);
    }
    let w: u32 = ((v as u32) * 255) / 1024;
    if w > 255 {
        255
    } else {
        w as u8
    }
}

/// One named uniform value: a scalar or a 2-, 3- or 4-vector, in 1/1024
/// fixed-point units.
#[derive(Debug, Clone, Copy, PartialEq, Eq, Structural)]
pub enum UniformValue {
    F(i64),
    V2(i64, i64),
    V3(i64, i64, i64),
    V4(i64, i64, i64, i64),
}

/// The binding a name resolves to: the latest entry wins, as an insertion
/// into a keyed table would.
pub open spec fn lookup_uniform(s: Seq<(String, UniformValue)>, name: Seq<char>) -> Option<
    UniformValue,
>
    decreases s.len(),
{
    if s.len() == 0 {
        Option::None
    } else if s.last().0@ == name {
        Option::Some(s.last().1)
    } else {
        lookup_uniform(s.drop_last(), name)
    }
}

/// The scalar a lookup yields, with 0 for an absent or differently-shaped
/// binding.
pub open spec fn float_of(o: Option<UniformValue>) -> i64 {
    match o {
        Option::Some(UniformValue::F(x)) => x,
        _ => 0,
    }
}

/// The 2-vector a lookup yields, with zeros for an absent or
/// differently-shaped binding.
pub open spec fn vec2_of(o: Option<UniformValue>) -> (i64, i64) {
    match o {
        Option::Some(UniformValue::V2(x, y)) => (x, y),
        _ => (0, 0),
    }
}

/// The 3-vector a lookup yields, with zeros otherwise.
pub open spec fn vec3_of(o: Option<UniformValue>) -> (i64, i64, i64) {
    match o {
        Option::Some(UniformValue::V3(x, y, z)) => (x, y, z),
        _ => (0, 0, 0),
    }
}

/// The 4-vector a lookup yields, with zeros otherwise.
pub open spec fn vec4_of(o: Option<UniformValue>) -> (i64, i64, i64, i64) {
    match o {
        Option::Some(UniformValue::V4(x, y, z, w)) => (x, y, z, w),
        _ => (0, 0, 0, 0),
    }
}

/// The per-invocation record an evaluator reads: the fragment coordinate in
/// pixels (changed for every pixel), the region resolution and elapsed time
/// in milliseconds (fixed for the invocation), and the uniform bindings.
pub struct ShaderContext {
    pub frag_x: i64,
    pub frag_y: i64,
    pub res_x: i64,
    pub res_y: i64,
    pub time_ms: i64,
    pub uniforms: Vec<(String, UniformValue)>,
}

/// The uniform bindings as plain values.
pub open spec fn uniforms_view(v: Seq<(String, UniformValue)>) -> Seq<(Seq<char>, UniformValue)> {
    v.map_values(|p: (String, UniformValue)| (p.0@, p.1))
}

impl ShaderContext {
    /// The resolution is positive and small enough for fixed-point math, and
    /// the fragment coordinate lies inside it.
    pub open spec fn wf(&self) -> bool {
        &&& 0 < self.res_x <= 65536
        &&& 0 < self.res_y <= 65536
        &&& 0 <= self.frag_x < self.res_x
        &&& 0 <= self.frag_y < self.res_y
        &&& 0 <= self.time_ms <= 0x4000_0000
    }

    /// A fresh context for a region of the given resolution, at the origin,
    /// time zero, with no uniforms bound.
    pub fn new(res_x: i64, res_y: i64) -> (c: ShaderContext)
        requires
            0 < res_x <= 65536,
            0 < res_y <= 65536,
        ensures
            c.wf(),
            c.frag_x == 0,
            c.frag_y == 0,
            c.res_x == res_x,
            c.res_y == res_y,
            c.time_ms == 0,
            c.uniforms@ =~= Seq::<(String, UniformValue)>::empty(),
    {
        ShaderContext {
            frag_x: 0,
            frag_y: 0,
            res_x,
            res_y,
            time_ms: 0,
            uniforms: Vec::new(),
        }
    }

    /// Binds a named uniform value; a later binding of the same name wins.
    pub fn set_uniform(&mut self, name: &str, value: UniformValue)
        ensures
            final(self).frag_x == old(self).frag_x,
            final(self).frag_y == old(self).frag_y,
            final(self).res_x == old(self).res_x,
            final(self).res_y == old(self).res_y,
            final(self).time_ms == old(self).time_ms,
            final(self).uniforms@.len() == old(self).uniforms@.len() + 1,
            final(self).uniforms@.take(old(self).uniforms@.len() as int) == old(self).uniforms@,
            final(self).uniforms@.last().0@ == name@,
            final(self).uniforms@.last().1 == value,
    {
        let owned: String = name.to_owned();
        self.uniforms.push((owned, value));
        proof {
            assert(final(self).uniforms@.take(old(self).uniforms@.len() as int) =~= old(
                self,
            ).uniforms@);
        }
    }

    /// The binding of a name, the latest entry winning.
    fn get(&self, name: &str) -> (r: Option<UniformValue>)
        ensures
            r == lookup_uniform(self.uniforms@, name@),
    {
        let owned: String = name.to_owned();
        let n: usize = self.uniforms.len();
        proof {
            assert(self.uniforms@.take(n as int) =~= self.uniforms@);
        }
        let mut i: usize = n;
        while i > 0
            invariant
                i <= n,
                n == self.uniforms@.len(),
                owned@ == name@,
                lookup_uniform(self.uniforms@, name@) == lookup_uniform(
                    self.uniforms@.take(i as int),
                    name@,
                ),
            decreases i,
        {
            i = i - 1;
            let entry: &(String, UniformValue) = &self.uniforms[i];
            proof {
                assert(self.uniforms@.take(i as int + 1).last() == self.uniforms@[i as int]);
                assert(self.uniforms@.take(i as int + 1).drop_last() =~= self.uniforms@.take(
                    i as int,
                ));
            }
            if entry.0 == owned {
                return Option::Some(entry.1);
            }
        }
        proof {
            assert(self.uniforms@.take(0) =~= Seq::<(String, UniformValue)>::empty());
        }
        Option::None
    }

    /// The scalar bound to a name, or 0.
    pub fn get_float(&self, name: &str) -> (v: i64)
        ensures
            v == float_of(lookup_uniform(self.uniforms@, name@)),
    {
        match self.get(name) {
            Option::Some(UniformValue::F(x)) => x,
            _ => 0,
        }
    }

    /// The 2-vector bound to a name, or zeros.
    pub fn get_vec2(&self, name: &str) -> (v: (i64, i64))
        ensures
            v == vec2_of(lookup_uniform(self.uniforms@, name@)),
    {
        match self.get(name) {
            Option::Some(UniformValue::V2(x, y)) => (x, y),
            _ => (0, 0),
        }
    }

    /// The 3-vector bound to a name, or zeros.
    pub fn get_vec3(&self, name: &str) -> (v: (i64, i64, i64))
        ensures
            v == vec3_of(lookup_uniform(self.uniforms@, name@)),
    {
        match self.get(name) {
            Option::Some(UniformValue::V3(x, y, z)) => (x, y, z),
            _ => (0, 0, 0),
        }
    }

    /// The 4-vector bound to a name, or zeros.
    pub fn get_vec4(&self, name: &str) -> (v: (i64, i64, i64, i64))
        ensures
            v == vec4_of(lookup_uniform(self.uniforms@, name@)),
    {
        match self.get(name) {
            Option::Some(UniformValue::V4(x, y, z, w)) => (x, y, z, w),
            _ => (0, 0, 0, 0),
        }
    }
}

/// A per-pixel evaluator: given a shader context, produce a color. The
/// specification function pins the result down as a mathematical function of
/// the context's plain values, so the driver's effect on the canvas is exact.
pub trait FragmentShader {
    /// The color this evaluator produces at fragment coordinate (fx, fy) of
    /// a region of resolution (rx, ry), at time `t`, under the given
    /// uniform bindings.
    spec fn frag_spec(
        &self,
        fx: int,
        fy: int,
        rx: int,
        ry: int,
        t: int,
        uniforms: Seq<(Seq<char>, UniformValue)>,
    ) -> ShaderColor;

    /// Evaluates the shader at the context's fragment coordinate.
    fn fragment(&self, ctx: &ShaderContext) -> (c: ShaderColor)
        requires
            ctx.wf(),
        ensures
            c == self.frag_spec(
                ctx.frag_x as int,
                ctx.frag_y as int,
                ctx.res_x as int,
                ctx.res_y as int,
                ctx.time_ms as int,
                uniforms_view(ctx.uniforms@),
            ),
    ;
}

/// The value a pixel takes when a shader result is written over it: fully
/// transparent results are skipped entirely, fully opaque ones overwrite,
/// and anything between is alpha-blended.
pub open spec fn shader_pixel_value(p: (u8, u8, u8, u8), sc: ShaderColor) -> (u8, u8, u8, u8) {
    let c = color_of(sc);
    if c.a == 0 {
        p
    } else if c.a == 255 {
        stored_pixel(c)
    } else {
        blended_pixel(p, c)
    }
}

impl Canvas {
    /// Runs a per-pixel evaluator over every pixel of the target rectangle:
    /// the fragment coordinate walks the region, the evaluator's fixed-point
    /// color is converted to 8 bits, and the result overwrites the pixel
    /// when opaque, blends when translucent, and is skipped entirely when
    /// fully transparent. Pixels outside the canvas are skipped.
    pub fn execute_shader<S: FragmentShader>(
        &mut self,
        x: i32,
        y: i32,
        width: i32,
        height: i32,
        shader: &S,
    )
        requires
            old(self).wf(),
            width <= 65536,
            height <= 65536,
            x as int + width as int <= i32::MAX as int,
            y as int + height as int <= i32::MAX as int,
        ensures
            final(self).wf(),
            same_shape(old(self), final(self)),
            forall|qx: int, qy: int|
                old(self).in_bounds(qx, qy) ==> #[trigger] final(self).pixel(qx, qy) == (
                if in_rect(qx, qy, x as int, y as int, width as int, height as int) {
                    shader_pixel_value(
                        old(self).pixel(qx, qy),
                        shader.frag_spec(
                            qx - x as int,
                            qy - y as int,
                            width as int,
                            height as int,
                            0,
                            Seq::<(Seq<char>, UniformValue)>::empty(),
                        ),
                    )
                } else {
                    old(self).pixel(qx, qy)
                }),
    {
        if width <= 0 || height <= 0 {
            return ;
        }
        let mut ctx = ShaderContext::new(width as i64, height as i64);
        proof {
            assert(uniforms_view(ctx.uniforms@) =~= Seq::<(Seq<char>, UniformValue)>::empty());
        }
        let mut ly: i32 = 0;
        while ly < height
            invariant
                self.wf(),
                same_shape(old(self), self),
                0 <= ly <= height,
                0 < width <= 65536,
                0 < height <= 65536,
                x as int + width as int <= i32::MAX as int,
                y as int + height as int <= i32::MAX as int,
                ctx.res_x == width as i64,
                ctx.res_y == height as i64,
                ctx.time_ms == 0,
                uniforms_view(ctx.uniforms@) == Seq::<(Seq<char>, UniformValue)>::empty(),
                forall|qx: int, qy: int|
                    old(self).in_bounds(qx, qy) ==> #[trigger] self.pixel(qx, qy) == (
                    if in_rect(qx, qy, x as int, y as int, width as int, height as int) && qy - y
                        < ly as int {
                        shader_pixel_value(
                            old(self).pixel(qx, qy),
                            shader.frag_spec(
                                qx - x as int,
                                qy - y as int,
                                width as int,
                                height as int,
                                0,
                                Seq::<(Seq<char>, UniformValue)>::empty(),
                            ),
                        )
                    } else {
                        old(self).pixel(qx, qy)
                    }),
            decreases height - ly,
        {
            let mut lx: i32 = 0;
            while lx < width
                invariant
                    self.wf(),
                    same_shape(old(self), self),
                    0 <= lx <= width,
                    0 <= ly < height,
                    0 < width <= 65536,
                    0 < height <= 65536,
                    x as int + width as int <= i32::MAX as int,
                    y as int + height as int <= i32::MAX as int,
                    ctx.res_x == width as i64,
                    ctx.res_y == height as i64,
                    ctx.time_ms == 0,
                    uniforms_view(ctx.uniforms@) == Seq::<(Seq<char>, UniformValue)>::empty(),
                    forall|qx: int, qy: int|
                        old(self).in_bounds(qx, qy) ==> #[trigger] self.pixel(qx, qy) == (
                        if in_rect(qx, qy, x as int, y as int, width as int, height as int) && (qy
                            - y < ly as int || (qy - y == ly as int && qx - x < lx as int)) {
                            shader_pixel_value(
                                old(self).pixel(qx, qy),
                                shader.frag_spec(
                                    qx - x as int,
                                    qy - y as int,
                                    width as int,
                                    height as int,
                                    0,
                                    Seq::<(Seq<char>, UniformValue)>::empty(),
                                ),
                            )
                        } else {
                            old(self).pixel(qx, qy)
                        }),
                decreases width - lx,
            {
                ctx.frag_x = lx as i64;
                ctx.frag_y = ly as i64;
                let sc: ShaderColor = shader.fragment(&ctx);
                let cr: u8 = to_byte_exec(sc.r);
                let cg: u8 = to_byte_exec(sc.g);
                let cb: u8 = to_byte_exec(sc.b);
                let ca: u8 = to_byte_exec(sc.a);
                let c = Color { r: cr, g: cg, b: cb, a: ca };
                if ca > 0 {
                    if ca == 255 {
                        self.set_pixel(x + lx, y + ly, c);
                    } else {
                        self.blend_pixel(x + lx, y + ly, c);
                    }
                }
                lx = lx + 1;
            }
            ly = ly + 1;
        }
    }
}

/// Channel-wise linear interpolation of two shader colors at parameter `t`
/// in 1/1024 units.
pub open spec fn mix_color(a: ShaderColor, b: ShaderColor, t: int) -> ShaderColor {
    ShaderColor {
        r: mix_q(a.r as int, b.r as int, t) as u16,
        g: mix_q(a.g as int, b.g as int, t) as u16,
        b: mix_q(a.b as int, b.b as int, t) as u16,
        a: mix_q(a.a as int, b.a as int, t) as u16,
    }
}

/// Executable channel interpolation, equal to the channels of `mix_color`.
fn mix_ch(a: u16, b: u16, t: i64) -> (r: u16)
    requires
        0 <= t <= 1024,
    ensures
        r as int == mix_q(a as int, b as int, t as int),
{
    proof {
        assert(0 <= (a as int) * (1024 - t as int) + (b as int) * (t as int) <= 0xffff
            * 1024) by (nonlinear_arith)
            requires
                0 <= t as int <= 1024,
                0 <= a as int <= 0xffff,
                0 <= b as int <= 0xffff,
        ;
        vstd::arithmetic::div_mod::lemma_div_pos_is_pos(
            (a as int) * (1024 - t as int) + (b as int) * (t as int),
            1024,
        );
        vstd::arithmetic::div_mod::lemma_div_is_ordered(
            (a as int) * (1024 - t as int) + (b as int) * (t as int),
            0xffffint * 1024,
            1024,
        );
        vstd::arithmetic::div_mod::lemma_div_multiples_vanish(0xffff, 1024);
    }
    (((a as i64) * (1024 - t) + (b as i64) * t) / 1024) as u16
}

/// The projection parameter of a linear gradient at normalized position
/// (ux, uy) in 1/1024 units: the centered position projected on the
/// direction vector, shifted by one half and clamped to the unit range.
pub open spec fn grad_t_uv(ux: int, uy: int, cq: int, sq: int) -> int {
    let num = (ux - 512) * cq + (uy - 512) * sq + 512 * 1024;
    if num < 0 {
        0
    } else if num / 1024 > 1024 {
        1024
    } else {
        num / 1024
    }
}

/// Executable gradient parameter, equal to `grad_t_uv`.
fn grad_t_uv_exec(ux: i64, uy: i64, cq: i64, sq: i64) -> (t: i64)
    requires
        0 <= ux <= 1024,
        0 <= uy <= 1024,
        -1024 <= cq <= 1024,
        -1024 <= sq <= 1024,
    ensures
        t == grad_t_uv(ux as int, uy as int, cq as int, sq as int),
        0 <= t <= 1024,
{
    proof {
        assert(-0x10_0000 <= (ux as int - 512) * (cq as int) <= 0x10_0000 && -0x10_0000 <= (
        uy as int - 512) * (sq as int) <= 0x10_0000) by (nonlinear_arith)
            requires
                -512 <= ux as int - 512 <= 512,
                -512 <= uy as int - 512 <= 512,
                -1024 <= cq as int <= 1024,
                -1024 <= sq as int <= 1024,
        ;
    }
    let num: i64 = (ux - 512) * cq + (uy - 512) * sq + 512 * 1024;
    if num < 0 {
        0
    } else {
        proof {
            vstd::arithmetic::div_mod::lemma_div_pos_is_pos(num as int, 1024);
        }
        let q: i64 = num / 1024;
        if q > 1024 {
            1024
        } else {
            q
        }
    }
}

/// The normalized coordinate of a fragment in 1/1024 units.
pub open spec fn norm_coord(f: int, r: int) -> int {
    f * 1024 / r
}

/// Executable normalized coordinate, equal to `norm_coord`.
fn norm_coord_exec(f: i64, r: i64) -> (u: i64)
    requires
        0 <= f < r,
        0 < r <= 65536,
    ensures
        u == norm_coord(f as int, r as int),
        0 <= u < 1024,
{
    proof {
        assert(0 <= (f as int) * 1024 <= 65536 * 1024) by (nonlinear_arith)
            requires
                0 <= f as int <= 65536,
        ;
        vstd::arithmetic::div_mod::lemma_div_pos_is_pos(f as int * 1024, r as int);
        assert((f as int) * 1024 < (r as int) * 1024) by (nonlinear_arith)
            requires
                (f as int) < (r as int),
        ;
        vstd::arithmetic::div_mod::lemma_multiply_divide_lt(f as int * 1024, r as int, 1024);
    }
    (f * 1024) / r
}

/// A linear gradient between two colors at an angle in whole degrees.
pub struct GradientShader {
    pub color_start: ShaderColor,
    pub color_end: ShaderColor,
    pub angle_deg: i32,
}

/// The color a linear gradient produces at a normalized position.
pub open spec fn gradient_frag(
    start: ShaderColor,
    end: ShaderColor,
    angle_deg: int,
    ux: int,
    uy: int,
) -> ShaderColor {
    mix_color(start, end, grad_t_uv(ux, uy, cos_deg_spec(angle_deg), sin_deg_spec(angle_deg)))
}

impl FragmentShader for GradientShader {
    open spec fn frag_spec(
        &self,
        fx: int,
        fy: int,
        rx: int,
        ry: int,
        t: int,
        uniforms: Seq<(Seq<char>, UniformValue)>,
    ) -> ShaderColor {
        gradient_frag(
            self.color_start,
            self.color_end,
            self.angle_deg as int,
            norm_coord(fx, rx),
            norm_coord(fy, ry),
        )
    }

    fn fragment(&self, ctx: &ShaderContext) -> (c: ShaderColor) {
        let ux: i64 = norm_coord_exec(ctx.frag_x, ctx.res_x);
        let uy: i64 = norm_coord_exec(ctx.frag_y, ctx.res_y);
        let cq: i64 = cos_deg(self.angle_deg);
        let sq: i64 = sin_deg(self.angle_deg);
        let t: i64 = grad_t_uv_exec(ux, uy, cq, sq);
        ShaderColor {
            r: mix_ch(self.color_start.r, self.color_end.r, t),
            g: mix_ch(self.color_start.g, self.color_end.g, t),
            b: mix_ch(self.color_start.b, self.color_end.b, t),
            a: mix_ch(self.color_start.a, self.color_end.a, t),
        }
    }
}

/// A radial gradient from a center color to an edge color, in normalized
/// coordinates (1/1024 units).
pub struct RadialGradientShader {
    pub color_center: ShaderColor,
    pub color_edge: ShaderColor,
    pub center_x: i64,
    pub center_y: i64,
    pub radius: i64,
}

/// The color a radial gradient produces at a normalized position: the
/// distance to the center over the radius, clamped, interpolates the two
/// colors. Extreme parameters are clamped into fixed-point range.
pub open spec fn radial_frag(
    center: ShaderColor,
    edge: ShaderColor,
    cx0: int,
    cy0: int,
    radius: int,
    ux: int,
    uy: int,
) -> ShaderColor {
    let cx = clamp_int(cx0, -0x10_0000, 0x10_0000);
    let cy = clamp_int(cy0, -0x10_0000, 0x10_0000);
    let rad = clamp_int(radius, 0, 0x10_0000);
    let dist = length_q(ux - cx, uy - cy);
    let t = if rad <= 0 {
        1024
    } else {
        clamp_int(dist * 1024 / rad, 0, 1024)
    };
    mix_color(center, edge, t)
}

impl FragmentShader for RadialGradientShader {
    open spec fn frag_spec(
        &self,
        fx: int,
        fy: int,
        rx: int,
        ry: int,
        t: int,
        uniforms: Seq<(Seq<char>, UniformValue)>,
    ) -> ShaderColor {
        radial_frag(
            self.color_center,
            self.color_edge,
            self.center_x as int,
            self.center_y as int,
            self.radius as int,
            norm_coord(fx, rx),
            norm_coord(fy, ry),
        )
    }

    fn fragment(&self, ctx: &ShaderContext) -> (c: ShaderColor) {
        let ux: i64 = norm_coord_exec(ctx.frag_x, ctx.res_x);
        let uy: i64 = norm_coord_exec(ctx.frag_y, ctx.res_y);
        let cx: i64 = clamp64(self.center_x, -0x10_0000, 0x10_0000);
        let cy: i64 = clamp64(self.center_y, -0x10_0000, 0x10_0000);
        let rad: i64 = clamp64(self.radius, 0, 0x10_0000);
        let dist: i64 = length64(ux - cx, uy - cy);
        let t: i64 = if rad <= 0 {
            1024
        } else {
            proof {
                assert(0 <= (dist as int) * 1024 <= 0x6000_0000int * 1024) by (nonlinear_arith)
                    requires
                        0 <= dist as int <= 0x6000_0000,
                ;
                vstd::arithmetic::div_mod::lemma_div_pos_is_pos(dist as int * 1024, rad as int);
            }
            clamp64((dist * 1024) / rad, 0, 1024)
        };
        ShaderColor {
            r: mix_ch(self.color_center.r, self.color_edge.r, t),
            g: mix_ch(self.color_center.g, self.color_edge.g, t),
            b: mix_ch(self.color_center.b, self.color_edge.b, t),
            a: mix_ch(self.color_center.a, self.color_edge.a, t),
        }
    }
}

/// A glow: the base color brightened by its own luminance times an
/// intensity.
pub struct GlowShader {
    pub base_color: ShaderColor,
    pub glow_intensity: i64,
}

/// One glow channel: the channel plus channel * intensity * luminance,
/// capped at full brightness.
pub open spec fn glow_channel(c: int, k: int, lum: int) -> int {
    let g = c * k * lum / (1024int * 1024);
    if c + g > 1024 {
        1024
    } else {
        c + g
    }
}

/// The luminance of a shader color by the usual video weights.
pub open spec fn luminance_q(c: ShaderColor) -> int {
    ((c.r as int) * 299 + (c.g as int) * 587 + (c.b as int) * 114) / 1000
}

/// The color a glow produces: each color channel brightened by the color's
/// luminance scaled by the intensity (clamped into range), alpha unchanged.
pub open spec fn glow_frag(base: ShaderColor, intensity: int) -> ShaderColor {
    let k = clamp_int(intensity, 0, 0x10_0000);
    let lum = luminance_q(base);
    ShaderColor {
        r: glow_channel(base.r as int, k, lum) as u16,
        g: glow_channel(base.g as int, k, lum) as u16,
        b: glow_channel(base.b as int, k, lum) as u16,
        a: base.a,
    }
}

/// Executable glow channel, equal to `glow_channel`.
fn glow_ch(c: u16, k: i64, lum: i64) -> (r: u16)
    requires
        0 <= k <= 0x10_0000,
        0 <= lum <= 0x10_0000,
    ensures
        r as int == glow_channel(c as int, k as int, lum as int),
{
    proof {
        assert(0 <= (c as int) * (k as int) <= 0xffffint * 0x10_0000 && 0 <= (c as int) * (
        k as int) * (lum as int) <= 0xffffint * 0x10_0000 * 0x10_0000) by (nonlinear_arith)
            requires
                0 <= c as int <= 0xffff,
                0 <= k as int <= 0x10_0000,
                0 <= lum as int <= 0x10_0000,
        ;
        vstd::arithmetic::div_mod::lemma_div_pos_is_pos(
            (c as int) * (k as int) * (lum as int),
            1024int * 1024,
        );
    }
    let g: i64 = (c as i64) * k * lum / (1024 * 1024);
    if (c as i64) + g > 1024 {
        1024
    } else {
        ((c as i64) + g) as u16
    }
}

impl FragmentShader for GlowShader {
    open spec fn frag_spec(
        &self,
        fx: int,
        fy: int,
        rx: int,
        ry: int,
        t: int,
        uniforms: Seq<(Seq<char>, UniformValue)>,
    ) -> ShaderColor {
        glow_frag(self.base_color, self.glow_intensity as int)
    }

    fn fragment(&self, ctx: &ShaderContext) -> (c: ShaderColor) {
        let k: i64 = clamp64(self.glow_intensity, 0, 0x10_0000);
        proof {
            assert(0 <= (self.base_color.r as int) * 299 + (self.base_color.g as int) * 587 + (
            self.base_color.b as int) * 114 <= 0xffffint * 1000) by (nonlinear_arith)
                requires
                    0 <= self.base_color.r as int <= 0xffff,
                    0 <= self.base_color.g as int <= 0xffff,
                    0 <= self.base_color.b as int <= 0xffff,
            ;
            vstd::arithmetic::div_mod::lemma_div_pos_is_pos(
                (self.base_color.r as int) * 299 + (self.base_color.g as int) * 587 + (
                self.base_color.b as int) * 114,
                1000,
            );
            vstd::arithmetic::div_mod::lemma_div_is_ordered(
                (self.base_color.r as int) * 299 + (self.base_color.g as int) * 587 + (
                self.base_color.b as int) * 114,
                0xffffint * 1000,
                1000,
            );
            vstd::arithmetic::div_mod::lemma_div_multiples_vanish(0xffff, 1000);
        }
        let lum: i64 = ((self.base_color.r as i64) * 299 + (self.base_color.g as i64) * 587 + (
        self.base_color.b as i64) * 114) / 1000;
        ShaderColor {
            r: glow_ch(self.base_color.r, k, lum),
            g: glow_ch(self.base_color.g, k, lum),
            b: glow_ch(self.base_color.b, k, lum),
            a: self.base_color.a,
        }
    }
}

/// One channel scaled by a unit-interval factor in 1/1024 units.
pub open spec fn scale_channel(c: int, num: int) -> int {
    c * num / 1024
}

/// Executable channel scaling, equal to `scale_channel`.
fn scale_ch(c: u16, num: i64) -> (r: u16)
    requires
        0 <= num <= 1024,
    ensures
        r as int == scale_channel(c as int, num as int),
{
    proof {
        assert(0 <= (c as int) * (num as int) <= 0xffffint * 1024) by (nonlinear_arith)
            requires
                0 <= c as int <= 0xffff,
                0 <= num as int <= 1024,
        ;
        vstd::arithmetic::div_mod::lemma_div_pos_is_pos((c as int) * (num as int), 1024);
        vstd::arithmetic::div_mod::lemma_div_is_ordered(
            (c as int) * (num as int),
            0xffffint * 1024,
            1024,
        );
        vstd::arithmetic::div_mod::lemma_div_multiples_vanish(0xffff, 1024);
    }
    (((c as i64) * num) / 1024) as u16
}

/// A rounded-rectangle shape with a signed-distance edge test and a
/// one-pixel smooth-step band, in pixel units.
pub struct RoundedRectShader {
    pub color: ShaderColor,
    pub rect_x: i64,
    pub rect_y: i64,
    pub rect_w: i64,
    pub rect_h: i64,
    pub corner_radius: i64,
}

/// The signed-distance value of the rounded-rectangle test at pixel
/// (px, py): the distance outside the inset box, plus the (negative) inner
/// coordinate when inside, with the square root taken as a floor.
pub open spec fn sdf_rounded(px: int, py: int, x: int, y: int, w: int, h: int, r: int) -> int {
    let hx = w / 2;
    let hy = h / 2;
    let cx = x + hx;
    let cy = y + hy;
    let ax = if px >= cx {
        px - cx
    } else {
        cx - px
    };
    let ay = if py >= cy {
        py - cy
    } else {
        cy - py
    };
    let dx = ax - (hx - r);
    let dy = ay - (hy - r);
    let mx = if dx > 0 {
        dx
    } else {
        0
    };
    let my = if dy > 0 {
        dy
    } else {
        0
    };
    let inner = if (if dx > dy {
        dx
    } else {
        dy
    }) < 0 {
        if dx > dy {
            dx
        } else {
            dy
        }
    } else {
        0
    };
    sqrt_floor((mx * mx + my * my) as nat) as int + inner
}

/// The color the rounded-rectangle shape produces at pixel (fx, fy): its own
/// color with the alpha scaled by one minus the smooth step across the edge
/// band `[radius - 1, radius]`. Extreme parameters are clamped into range.
pub open spec fn rounded_rect_frag(
    c: ShaderColor,
    x0: int,
    y0: int,
    w0: int,
    h0: int,
    r0: int,
    fx: int,
    fy: int,
) -> ShaderColor {
    let x = clamp_int(x0, -0x10_0000, 0x10_0000);
    let y = clamp_int(y0, -0x10_0000, 0x10_0000);
    let w = clamp_int(w0, 0, 0x10_0000);
    let h = clamp_int(h0, 0, 0x10_0000);
    let r = clamp_int(r0, 0, 0x10_0000);
    let dist = sdf_rounded(fx, fy, x, y, w, h, r);
    let alpha = 1024 - smoothstep_q(r - 1, r, dist);
    ShaderColor { r: c.r, g: c.g, b: c.b, a: scale_channel(c.a as int, alpha) as u16 }
}

impl FragmentShader for RoundedRectShader {
    open spec fn frag_spec(
        &self,
        fx: int,
        fy: int,
        rx: int,
        ry: int,
        t: int,
        uniforms: Seq<(Seq<char>, UniformValue)>,
    ) -> ShaderColor {
        rounded_rect_frag(
            self.color,
            self.rect_x as int,
            self.rect_y as int,
            self.rect_w as int,
            self.rect_h as int,
            self.corner_radius as int,
            fx,
            fy,
        )
    }

    fn fragment(&self, ctx: &ShaderContext) -> (c: ShaderColor) {
        let x: i64 = clamp64(self.rect_x, -0x10_0000, 0x10_0000);
        let y: i64 = clamp64(self.rect_y, -0x10_0000, 0x10_0000);
        let w: i64 = clamp64(self.rect_w, 0, 0x10_0000);
        let h: i64 = clamp64(self.rect_h, 0, 0x10_0000);
        let r: i64 = clamp64(self.corner_radius, 0, 0x10_0000);
        let hx: i64 = w / 2;
        let hy: i64 = h / 2;
        proof {
            vstd::arithmetic::div_mod::lemma_div_pos_is_pos(w as int, 2);
            vstd::arithmetic::div_mod::lemma_div_is_ordered(w as int, 0x10_0000, 2);
            vstd::arithmetic::div_mod::lemma_div_pos_is_pos(h as int, 2);
            vstd::arithmetic::div_mod::lemma_div_is_ordered(h as int, 0x10_0000, 2);
        }
        let cx: i64 = x + hx;
        let cy: i64 = y + hy;
        let px: i64 = ctx.frag_x;
        let py: i64 = ctx.frag_y;
        let ax: i64 = if px >= cx {
            px - cx
        } else {
            cx - px
        };
        let ay: i64 = if py >= cy {
            py - cy
        } else {
            cy - py
        };
        let dx: i64 = ax - (hx - r);
        let dy: i64 = ay - (hy - r);
        let mx: i64 = if dx > 0 {
            dx
        } else {
            0
        };
        let my: i64 = if dy > 0 {
            dy
        } else {
            0
        };
        let big: i64 = if dx > dy {
            dx
        } else {
            dy
        };
        let inner: i64 = if big < 0 {
            big
        } else {
            0
        };
        proof {
            assert(0 <= (mx as int) * (mx as int) <= 0x40_0000int * 0x40_0000 && 0 <= (
            my as int) * (my as int) <= 0x40_0000int * 0x40_0000) by (nonlinear_arith)
                requires
                    0 <= mx as int <= 0x40_0000,
                    0 <= my as int <= 0x40_0000,
            ;
        }
        let d2: u64 = ((mx * mx) + (my * my)) as u64;
        let outer: u64 = crate::fixed::isqrt(d2);
        proof {
            assert((0x80_0000int * 0x80_0000) >= 2 * (0x40_0000int * 0x40_0000))
                by (nonlinear_arith);
            crate::fixed::lemma_sqrt_floor_le(d2 as nat, 0x80_0000nat);
        }
        let dist: i64 = (outer as i64) + inner;
        let alpha: i64 = 1024 - crate::fixed::smoothstep64(r - 1, r, dist);
        ShaderColor {
            r: self.color.r,
            g: self.color.g,
            b: self.color.b,
            a: scale_ch(self.color.a, alpha),
        }
    }
}

/// An analytic blur approximation: it attenuates the base color by the
/// distance from the region center, since a true convolution would need an
/// already-rendered buffer to sample.
pub struct BlurShader {
    pub base_color: ShaderColor,
    pub blur_radius: i64,
}

/// The color the blur approximation produces at a normalized position: the
/// base color scaled by one minus a factor that grows with the distance from
/// the center, capped at three tenths.
pub open spec fn blur_frag(c: ShaderColor, radius0: int, ux: int, uy: int) -> ShaderColor {
    let rad = clamp_int(radius0, 0, 0x10_0000);
    let dist = length_q(ux - 512, uy - 512);
    let bf0 = rad * dist / 10240;
    let bf = if bf0 > 307 {
        307
    } else {
        bf0
    };
    ShaderColor {
        r: scale_channel(c.r as int, 1024 - bf) as u16,
        g: scale_channel(c.g as int, 1024 - bf) as u16,
        b: scale_channel(c.b as int, 1024 - bf) as u16,
        a: c.a,
    }
}

impl FragmentShader for BlurShader {
    open spec fn frag_spec(
        &self,
        fx: int,
        fy: int,
        rx: int,
        ry: int,
        t: int,
        uniforms: Seq<(Seq<char>, UniformValue)>,
    ) -> ShaderColor {
        blur_frag(self.base_color, self.blur_radius as int, norm_coord(fx, rx), norm_coord(fy, ry))
    }

    fn fragment(&self, ctx: &ShaderContext) -> (c: ShaderColor) {
        let ux: i64 = norm_coord_exec(ctx.frag_x, ctx.res_x);
        let uy: i64 = norm_coord_exec(ctx.frag_y, ctx.res_y);
        let rad: i64 = clamp64(self.blur_radius, 0, 0x10_0000);
        let dist: i64 = length64(ux - 512, uy - 512);
        proof {
            assert(0 <= (rad as int) * (dist as int) <= 0x10_0000int * 0x6000_0000)
                by (nonlinear_arith)
                requires
                    0 <= rad as int <= 0x10_0000,
                    0 <= dist as int <= 0x6000_0000,
            ;
            vstd::arithmetic::div_mod::lemma_div_pos_is_pos(
                (rad as int) * (dist as int),
                10240,
            );
        }
        let bf0: i64 = rad * dist / 10240;
        let bf: i64 = if bf0 > 307 {
            307
        } else {
            bf0
        };
        ShaderColor {
            r: scale_ch(self.base_color.r, 1024 - bf),
            g: scale_ch(self.base_color.g, 1024 - bf),
            b: scale_ch(self.base_color.b, 1024 - bf),
            a: self.base_color.a,
        }
    }
}

/// A sinusoidal wave distortion: the vertical position drives a phase
/// accumulator whose sine displaces the horizontal coordinate, and the
/// fractional part of the displaced coordinate modulates the brightness.
pub struct WaveShader {
    pub base_color: ShaderColor,
    pub amplitude: i64,
    pub frequency: i64,
}

/// The color the wave produces at a normalized position and time: the base
/// color scaled by `0.8 + 0.2 * fract(ux + sin(phase) * amplitude)` where
/// the phase in whole degrees is `uy * frequency / 1024 + t`.
pub open spec fn wave_frag(c: ShaderColor, amp0: int, freq0: int, ux: int, uy: int, t: int)
    -> ShaderColor {
    let amp = clamp_int(amp0, 0, 0x10_0000);
    let freq = clamp_int(freq0, 0, 0x10_0000);
    let phase = uy * freq / 1024 + t;
    let sq = sin_deg_spec(phase);
    let wave = if sq >= 0 {
        sq * amp / 1024
    } else {
        -((-sq) * amp / 1024)
    };
    let tq = crate::fixed::fract_q(ux + wave);
    let factor = 819 + tq * 205 / 1024;
    ShaderColor {
        r: scale_channel(c.r as int, factor) as u16,
        g: scale_channel(c.g as int, factor) as u16,
        b: scale_channel(c.b as int, factor) as u16,
        a: c.a,
    }
}

impl FragmentShader for WaveShader {
    open spec fn frag_spec(
        &self,
        fx: int,
        fy: int,
        rx: int,
        ry: int,
        t: int,
        uniforms: Seq<(Seq<char>, UniformValue)>,
    ) -> ShaderColor {
        wave_frag(
            self.base_color,
            self.amplitude as int,
            self.frequency as int,
            norm_coord(fx, rx),
            norm_coord(fy, ry),
            t,
        )
    }

    fn fragment(&self, ctx: &ShaderContext) -> (c: ShaderColor) {
        let ux: i64 = norm_coord_exec(ctx.frag_x, ctx.res_x);
        let uy: i64 = norm_coord_exec(ctx.frag_y, ctx.res_y);
        let amp: i64 = clamp64(self.amplitude, 0, 0x10_0000);
        let freq: i64 = clamp64(self.frequency, 0, 0x10_0000);
        proof {
            assert(0 <= (uy as int) * (freq as int) <= 1024 * 0x10_0000int) by (nonlinear_arith)
                requires
                    0 <= uy as int <= 1024,
                    0 <= freq as int <= 0x10_0000,
            ;
            vstd::arithmetic::div_mod::lemma_div_pos_is_pos((uy as int) * (freq as int), 1024);
            vstd::arithmetic::div_mod::lemma_div_is_ordered(
                (uy as int) * (freq as int),
                1024 * 0x10_0000int,
                1024,
            );
            vstd::arithmetic::div_mod::lemma_div_multiples_vanish(0x10_0000, 1024);
        }
        let phase: i64 = uy * freq / 1024 + ctx.time_ms;
        let sq: i64 = crate::fixed::sin_deg_wide(phase);
        proof {
            assert(-0x10_0000int * 1024 <= (sq as int) * (amp as int) <= 0x10_0000int
                * 1024) by (nonlinear_arith)
                requires
                    -1024 <= sq as int <= 1024,
                    0 <= amp as int <= 0x10_0000,
            ;
        }
        let wave: i64 = if sq >= 0 {
            proof {
                vstd::arithmetic::div_mod::lemma_div_pos_is_pos((sq as int) * (amp as int), 1024);
            }
            sq * amp / 1024
        } else {
            proof {
                assert(0 <= ((-sq) as int) * (amp as int) <= 1024 * 0x10_0000int)
                    by (nonlinear_arith)
                    requires
                        0 <= (-sq) as int <= 1024,
                        0 <= amp as int <= 0x10_0000,
                ;
                vstd::arithmetic::div_mod::lemma_div_pos_is_pos(
                    ((-sq) as int) * (amp as int),
                    1024,
                );
                vstd::arithmetic::div_mod::lemma_div_is_ordered(
                    ((-sq) as int) * (amp as int),
                    1024 * 0x10_0000int,
                    1024,
                );
                vstd::arithmetic::div_mod::lemma_div_multiples_vanish(0x10_0000, 1024);
            }
            -((-sq) * amp / 1024)
        };
        let tq: i64 = crate::fixed::fract64(ux + wave);
        proof {
            assert(0 <= (tq as int) * 205 <= 1024int * 205) by (nonlinear_arith)
                requires
                    0 <= (tq as int), (tq as int) < 1024,
            ;
            vstd::arithmetic::div_mod::lemma_div_pos_is_pos((tq as int) * 205, 1024);
            vstd::arithmetic::div_mod::lemma_div_is_ordered((tq as int) * 205, 1024int * 205, 1024);
            vstd::arithmetic::div_mod::lemma_div_multiples_vanish(205, 1024);
        }
        let factor: i64 = 819 + tq * 205 / 1024;
        ShaderColor {
            r: scale_ch(self.base_color.r, factor),
            g: scale_ch(self.base_color.g, factor),
            b: scale_ch(self.base_color.b, factor),
            a: self.base_color.a,
        }
    }
}

/// Procedural value noise: a hashed integer lattice sampled with smoothed
/// bilinear interpolation modulates the base color's brightness.
pub struct NoiseShader {
    pub base_color: ShaderColor,
    pub scale: i64,
}

/// The lattice hash: a deterministic integer mix of the cell coordinates,
/// reduced to a unit-interval value in 1/1024 units.
pub open spec fn lattice_hash(ix: int, iy: int) -> int {
    let h1 = (ix * 374761393 + iy * 668265263) % 0x8000_0000;
    let h2 = (h1 * (h1 + 33)) % 0x8000_0000;
    h2 % 1024
}

/// The smoothed interpolation weight `f * f * (3 - 2 * f)` of a fractional
/// lattice coordinate in 1/1024 units.
pub open spec fn smooth_weight(f: int) -> int {
    f * f * (3072 - 2 * f) / (1024int * 1024)
}

/// Smoothed bilinear value noise at a position in 1/1024 lattice units.
pub open spec fn value_noise(px: int, py: int) -> int {
    let ix = px / 1024;
    let iy = py / 1024;
    let sx = smooth_weight(px % 1024);
    let sy = smooth_weight(py % 1024);
    let a = lattice_hash(ix, iy);
    let b = lattice_hash(ix + 1, iy);
    let c = lattice_hash(ix, iy + 1);
    let d = lattice_hash(ix + 1, iy + 1);
    let raw = (a * (1024 - sx) * (1024 - sy) + b * sx * (1024 - sy) + c * (1024 - sx) * sy + d * sx
        * sy) / (1024int * 1024);
    if raw > 1024 {
        1024
    } else {
        raw
    }
}

/// The color the noise produces at a normalized position: the base color
/// scaled by `0.7 + 0.3 * noise(u * scale)`.
pub open spec fn noise_frag(c: ShaderColor, scale0: int, ux: int, uy: int) -> ShaderColor {
    let sc = clamp_int(scale0, 0, 0x10_0000);
    let n = value_noise(ux * sc / 1024, uy * sc / 1024);
    let factor = 717 + n * 307 / 1024;
    ShaderColor {
        r: scale_channel(c.r as int, factor) as u16,
        g: scale_channel(c.g as int, factor) as u16,
        b: scale_channel(c.b as int, factor) as u16,
        a: c.a,
    }
}

/// Executable lattice hash, equal to `lattice_hash`.
fn lattice_hash_exec(ix: i64, iy: i64) -> (h: i64)
    requires
        0 <= ix <= 0x20_0000,
        0 <= iy <= 0x20_0000,
    ensures
        h == lattice_hash(ix as int, iy as int),
        0 <= h < 1024,
{
    proof {
        assert(0 <= (ix as int) * 374761393 <= 0x20_0000int * 374761393 && 0 <= (iy as int)
            * 668265263 <= 0x20_0000int * 668265263) by (nonlinear_arith)
            requires
                0 <= ix as int <= 0x20_0000,
                0 <= iy as int <= 0x20_0000,
        ;
        vstd::arithmetic::div_mod::lemma_mod_bound(
            (ix as int) * 374761393 + (iy as int) * 668265263,
            0x8000_0000,
        );
    }
    let h1: i64 = (ix * 374761393 + iy * 668265263) % 0x8000_0000;
    proof {
        assert(0 <= (h1 as int) * (h1 as int + 33) <= 0x8000_0000int * (0x8000_0000
            + 33)) by (nonlinear_arith)
            requires
                0 <= (h1 as int), (h1 as int) < 0x8000_0000,
        ;
        vstd::arithmetic::div_mod::lemma_mod_bound((h1 as int) * (h1 as int + 33), 0x8000_0000);
    }
    let h2: i64 = (h1 * (h1 + 33)) % 0x8000_0000;
    proof {
        vstd::arithmetic::div_mod::lemma_mod_bound(h2 as int, 1024);
    }
    h2 % 1024
}

/// Executable smoothed weight, equal to `smooth_weight`.
fn smooth_weight_exec(f: i64) -> (w: i64)
    requires
        0 <= f < 1024,
    ensures
        w == smooth_weight(f as int),
        0 <= w <= 1024,
{
    proof {
        assert(0 <= (f as int) * (f as int) <= 1024int * 1024 && 0 <= (f as int) * (f as int) * (
        3072 - 2 * f as int) && (f as int) * (f as int) * (3072 - 2 * f as int) <= 1024int * 1024
            * 1024) by (nonlinear_arith)
            requires
                0 <= (f as int), (f as int) < 1024,
        ;
        vstd::arithmetic::div_mod::lemma_div_pos_is_pos(
            (f as int) * (f as int) * (3072 - 2 * f as int),
            1024int * 1024,
        );
        vstd::arithmetic::div_mod::lemma_div_is_ordered(
            (f as int) * (f as int) * (3072 - 2 * f as int),
            1024int * 1024 * 1024,
            1024int * 1024,
        );
        assert(1024int * 1024 * 1024 == (1024int * 1024) * 1024) by (nonlinear_arith);
        vstd::arithmetic::div_mod::lemma_div_multiples_vanish(1024, 1024int * 1024);
    }
    f * f * (3072 - 2 * f) / (1024 * 1024)
}

/// Executable value noise, equal to `value_noise`.
#[verifier::rlimit(60)]
fn value_noise_exec(px: i64, py: i64) -> (n: i64)
    requires
        0 <= px <= 0x4000_0000,
        0 <= py <= 0x4000_0000,
    ensures
        n == value_noise(px as int, py as int),
        0 <= n <= 1024,
{
    proof {
        vstd::arithmetic::div_mod::lemma_div_pos_is_pos(px as int, 1024);
        vstd::arithmetic::div_mod::lemma_div_is_ordered(px as int, 0x4000_0000, 1024);
        vstd::arithmetic::div_mod::lemma_div_pos_is_pos(py as int, 1024);
        vstd::arithmetic::div_mod::lemma_div_is_ordered(py as int, 0x4000_0000, 1024);
        vstd::arithmetic::div_mod::lemma_div_multiples_vanish(0x10_0000, 1024);
        assert(0x4000_0000int == 1024 * 0x10_0000) by (nonlinear_arith);
        vstd::arithmetic::div_mod::lemma_mod_bound(px as int, 1024);
        vstd::arithmetic::div_mod::lemma_mod_bound(py as int, 1024);
    }
    let ix: i64 = px / 1024;
    let iy: i64 = py / 1024;
    let sx: i64 = smooth_weight_exec(px % 1024);
    let sy: i64 = smooth_weight_exec(py % 1024);
    let a: i64 = lattice_hash_exec(ix, iy);
    let b: i64 = lattice_hash_exec(ix + 1, iy);
    let c: i64 = lattice_hash_exec(ix, iy + 1);
    let d: i64 = lattice_hash_exec(ix + 1, iy + 1);
    proof {
        assert forall|v: int, p: int, q: int|
            0 <= v < 1024 && 0 <= p <= 1024 && 0 <= q <= 1024 implies 0 <= #[trigger] (v * p * q)
            <= 1024int * 1024 * 1024 && 0 <= v * p <= 1024int * 1024 by {
            assert(0 <= v * p <= 1024int * 1024 && 0 <= v * p * q <= 1024int * 1024
                * 1024) by (nonlinear_arith)
                requires
                    0 <= v < 1024,
                    0 <= p <= 1024,
                    0 <= q <= 1024,
            ;
        }
        assert(0 <= (a as int) * (1024 - sx as int) * (1024 - sy as int) <= 1024int * 1024 * 1024);
        assert(0 <= (b as int) * (sx as int) * (1024 - sy as int) <= 1024int * 1024 * 1024);
        assert(0 <= (c as int) * (1024 - sx as int) * (sy as int) <= 1024int * 1024 * 1024);
        assert(0 <= (d as int) * (sx as int) * (sy as int) <= 1024int * 1024 * 1024);
    }
    let t1: i64 = a * (1024 - sx) * (1024 - sy);
    let t2: i64 = b * sx * (1024 - sy);
    let t3: i64 = c * (1024 - sx) * sy;
    let t4: i64 = d * sx * sy;
    let total: i64 = t1 + t2 + t3 + t4;
    proof {
        let s4 = t1 as int + t2 as int + t3 as int + t4 as int;
        assert(0 <= s4 <= 4 * (1024int * 1024 * 1024));
        vstd::arithmetic::div_mod::lemma_div_pos_is_pos(s4, 1024int * 1024);
        assert(s4 <= (1024int * 1024) * 4096) by (nonlinear_arith)
            requires
                s4 <= 4 * (1024int * 1024 * 1024),
        ;
        vstd::arithmetic::div_mod::lemma_div_is_ordered(s4, (1024int * 1024) * 4096, 1024int * 1024);
        vstd::arithmetic::div_mod::lemma_div_multiples_vanish(4096, 1024int * 1024);
    }
    let raw: i64 = total / (1024 * 1024);
    if raw > 1024 {
        1024
    } else {
        raw
    }
}

impl FragmentShader for NoiseShader {
    open spec fn frag_spec(
        &self,
        fx: int,
        fy: int,
        rx: int,
        ry: int,
        t: int,
        uniforms: Seq<(Seq<char>, UniformValue)>,
    ) -> ShaderColor {
        noise_frag(self.base_color, self.scale as int, norm_coord(fx, rx), norm_coord(fy, ry))
    }

    fn fragment(&self, ctx: &ShaderContext) -> (c: ShaderColor) {
        let ux: i64 = norm_coord_exec(ctx.frag_x, ctx.res_x);
        let uy: i64 = norm_coord_exec(ctx.frag_y, ctx.res_y);
        let sc: i64 = clamp64(self.scale, 0, 0x10_0000);
        proof {
            assert(0 <= (ux as int) * (sc as int) <= 1024 * 0x10_0000int && 0 <= (uy as int) * (
            sc as int) <= 1024 * 0x10_0000int) by (nonlinear_arith)
                requires
                    0 <= ux as int <= 1024,
                    0 <= uy as int <= 1024,
                    0 <= sc as int <= 0x10_0000,
            ;
            vstd::arithmetic::div_mod::lemma_div_pos_is_pos((ux as int) * (sc as int), 1024);
            vstd::arithmetic::div_mod::lemma_div_is_ordered(
                (ux as int) * (sc as int),
                1024 * 0x10_0000int,
                1024,
            );
            vstd::arithmetic::div_mod::lemma_div_pos_is_pos((uy as int) * (sc as int), 1024);
            vstd::arithmetic::div_mod::lemma_div_is_ordered(
                (uy as int) * (sc as int),
                1024 * 0x10_0000int,
                1024,
            );
            vstd::arithmetic::div_mod::lemma_div_multiples_vanish(0x10_0000, 1024);
        }
        let n: i64 = value_noise_exec(ux * sc / 1024, uy * sc / 1024);
        proof {
            assert(0 <= (n as int) * 307 <= 1024int * 307) by (nonlinear_arith)
                requires
                    0 <= n as int <= 1024,
            ;
            vstd::arithmetic::div_mod::lemma_div_pos_is_pos((n as int) * 307, 1024);
            vstd::arithmetic::div_mod::lemma_div_is_ordered((n as int) * 307, 1024int * 307, 1024);
            vstd::arithmetic::div_mod::lemma_div_multiples_vanish(307, 1024);
        }
        let factor: i64 = 717 + n * 307 / 1024;
        ShaderColor {
            r: scale_ch(self.base_color.r, factor),
            g: scale_ch(self.base_color.g, factor),
            b: scale_ch(self.base_color.b, factor),
            a: self.base_color.a,
        }
    }
}

/// A drop shadow around a soft circular base shape: the shadow is the same
/// shape offset and widened by the blur, shown where the base is absent.
pub struct DropShadowShader {
    pub base_color: ShaderColor,
    pub shadow_color: ShaderColor,
    pub offset_x: i64,
    pub offset_y: i64,
    pub shadow_blur: i64,
    pub shadow_opacity: i64,
}

/// A normalized coordinate displaced by one tenth of the offset per
/// resolution unit, with the division kept sign-exact.
pub open spec fn shifted_uv(u: int, off: int, r: int) -> int {
    if off >= 0 {
        u - off * 1024 / (r * 10)
    } else {
        u + (-off) * 1024 / (r * 10)
    }
}

/// The color the drop shadow produces at a normalized position: the base
/// color faded by a smooth circular edge where the base shape lies, the
/// shadow color scaled by opacity where only the blurred, offset shadow
/// shape lies, and full transparency elsewhere.
pub open spec fn drop_shadow_frag(
    base: ShaderColor,
    shadow: ShaderColor,
    ox0: int,
    oy0: int,
    blur0: int,
    op0: int,
    ux: int,
    uy: int,
    rx: int,
    ry: int,
) -> ShaderColor {
    let ox = clamp_int(ox0, -0x10_0000, 0x10_0000);
    let oy = clamp_int(oy0, -0x10_0000, 0x10_0000);
    let blur = clamp_int(blur0, 0, 0x10_0000);
    let op = clamp_int(op0, 0, 1024);
    let base_dist = length_q(ux - 512, uy - 512);
    let base_shape = 1024 - smoothstep_q(307, 512, base_dist);
    let sx = shifted_uv(ux, ox, rx);
    let sy = shifted_uv(uy, oy, ry);
    let shadow_dist = length_q(sx - 512, sy - 512);
    let shadow_radius = 512 + blur / 100;
    let shadow_shape = 1024 - smoothstep_q(307, shadow_radius, shadow_dist);
    let shadow_alpha = shadow_shape * op / 1024;
    if base_shape > 10 {
        ShaderColor {
            r: base.r,
            g: base.g,
            b: base.b,
            a: scale_channel(base.a as int, base_shape) as u16,
        }
    } else if shadow_alpha > 10 {
        ShaderColor { r: shadow.r, g: shadow.g, b: shadow.b, a: shadow_alpha as u16 }
    } else {
        ShaderColor { r: 0, g: 0, b: 0, a: 0 }
    }
}

/// Executable displaced coordinate, equal to `shifted_uv`.
fn shifted_uv_exec(u: i64, off: i64, r: i64) -> (v: i64)
    requires
        0 <= u <= 1024,
        -0x10_0000 <= off <= 0x10_0000,
        0 < r <= 65536,
    ensures
        v == shifted_uv(u as int, off as int, r as int),
        -0x1000_0000 <= v <= 0x1000_0000,
{
    proof {
        assert(0 < (r as int) * 10 <= 655360 && 0 <= 0x10_0000int * 1024) by (nonlinear_arith)
            requires
                0 < r as int <= 65536,
        ;
    }
    if off >= 0 {
        proof {
            assert(0 <= (off as int) * 1024 <= 0x10_0000int * 1024) by (nonlinear_arith)
                requires
                    0 <= off as int <= 0x10_0000,
            ;
            vstd::arithmetic::div_mod::lemma_div_pos_is_pos((off as int) * 1024, (r as int) * 10);
            vstd::arithmetic::div_mod::lemma_div_is_ordered(
                (off as int) * 1024,
                0x10_0000int * 1024,
                (r as int) * 10,
            );
            vstd::arithmetic::div_mod::lemma_div_is_ordered_by_denominator(
                0x10_0000int * 1024,
                10,
                (r as int) * 10,
            );
        }
        u - (off * 1024) / (r * 10)
    } else {
        proof {
            assert(0 <= ((-off) as int) * 1024 <= 0x10_0000int * 1024) by (nonlinear_arith)
                requires
                    0 <= (-off) as int <= 0x10_0000,
            ;
            vstd::arithmetic::div_mod::lemma_div_pos_is_pos(
                ((-off) as int) * 1024,
                (r as int) * 10,
            );
            vstd::arithmetic::div_mod::lemma_div_is_ordered_by_denominator(
                0x10_0000int * 1024,
                10,
                (r as int) * 10,
            );
            vstd::arithmetic::div_mod::lemma_div_is_ordered(
                ((-off) as int) * 1024,
                0x10_0000int * 1024,
                (r as int) * 10,
            );
        }
        u + ((-off) * 1024) / (r * 10)
    }
}

impl FragmentShader for DropShadowShader {
    open spec fn frag_spec(
        &self,
        fx: int,
        fy: int,
        rx: int,
        ry: int,
        t: int,
        uniforms: Seq<(Seq<char>, UniformValue)>,
    ) -> ShaderColor {
        drop_shadow_frag(
            self.base_color,
            self.shadow_color,
            self.offset_x as int,
            self.offset_y as int,
            self.shadow_blur as int,
            self.shadow_opacity as int,
            norm_coord(fx, rx),
            norm_coord(fy, ry),
            rx,
            ry,
        )
    }

    fn fragment(&self, ctx: &ShaderContext) -> (c: ShaderColor) {
        let ux: i64 = norm_coord_exec(ctx.frag_x, ctx.res_x);
        let uy: i64 = norm_coord_exec(ctx.frag_y, ctx.res_y);
        let ox: i64 = clamp64(self.offset_x, -0x10_0000, 0x10_0000);
        let oy: i64 = clamp64(self.offset_y, -0x10_0000, 0x10_0000);
        let blur: i64 = clamp64(self.shadow_blur, 0, 0x10_0000);
        let op: i64 = clamp64(self.shadow_opacity, 0, 1024);
        let base_dist: i64 = length64(ux - 512, uy - 512);
        let base_shape: i64 = 1024 - crate::fixed::smoothstep64(307, 512, base_dist);
        let sx: i64 = shifted_uv_exec(ux, ox, ctx.res_x);
        let sy: i64 = shifted_uv_exec(uy, oy, ctx.res_y);
        let shadow_dist: i64 = length64(sx - 512, sy - 512);
        proof {
            vstd::arithmetic::div_mod::lemma_div_pos_is_pos(blur as int, 100);
            vstd::arithmetic::div_mod::lemma_div_is_ordered(blur as int, 0x10_0000, 100);
        }
        let shadow_radius: i64 = 512 + blur / 100;
        let shadow_shape: i64 = 1024 - crate::fixed::smoothstep64(
            307,
            shadow_radius,
            shadow_dist,
        );
        proof {
            assert(0 <= (shadow_shape as int) * (op as int) <= 1024int * 1024) by (nonlinear_arith)
                requires
                    0 <= shadow_shape as int <= 1024,
                    0 <= op as int <= 1024,
            ;
            vstd::arithmetic::div_mod::lemma_div_pos_is_pos(
                (shadow_shape as int) * (op as int),
                1024,
            );
            vstd::arithmetic::div_mod::lemma_div_is_ordered(
                (shadow_shape as int) * (op as int),
                1024int * 1024,
                1024,
            );
            vstd::arithmetic::div_mod::lemma_div_multiples_vanish(1024, 1024);
        }
        let shadow_alpha: i64 = shadow_shape * op / 1024;
        if base_shape > 10 {
            ShaderColor {
                r: self.base_color.r,
                g: self.base_color.g,
                b: self.base_color.b,
                a: scale_ch(self.base_color.a, base_shape),
            }
        } else if shadow_alpha > 10 {
            ShaderColor {
                r: self.shadow_color.r,
                g: self.shadow_color.g,
                b: self.shadow_color.b,
                a: shadow_alpha as u16,
            }
        } else {
            ShaderColor { r: 0, g: 0, b: 0, a: 0 }
        }
    }
}

/// An inner shadow: the shadow color bleeds in from the region edges with a
/// smooth falloff controlled by the blur.
pub struct InnerShadowShader {
    pub base_color: ShaderColor,
    pub shadow_color: ShaderColor,
    pub offset_x: i64,
    pub offset_y: i64,
    pub shadow_blur: i64,
    pub shadow_opacity: i64,
}

/// The color the inner shadow produces at a normalized position: the base
/// and shadow colors mixed by a strength that falls off smoothly with the
/// distance from the nearest region edge.
pub open spec fn inner_shadow_frag(
    base: ShaderColor,
    shadow: ShaderColor,
    blur0: int,
    op0: int,
    ux: int,
    uy: int,
) -> ShaderColor {
    let blur = clamp_int(blur0, 0, 0x10_0000);
    let op = clamp_int(op0, 0, 1024);
    let ex = if ux < 1024 - ux {
        ux
    } else {
        1024 - ux
    };
    let ey = if uy < 1024 - uy {
        uy
    } else {
        1024 - uy
    };
    let edge = if ex < ey {
        ex
    } else {
        ey
    };
    let strength = 1024 - smoothstep_q(0, blur / 100, edge);
    let sa = strength * op / 1024;
    ShaderColor {
        r: mix_q(base.r as int, shadow.r as int, sa) as u16,
        g: mix_q(base.g as int, shadow.g as int, sa) as u16,
        b: mix_q(base.b as int, shadow.b as int, sa) as u16,
        a: base.a,
    }
}

impl FragmentShader for InnerShadowShader {
    open spec fn frag_spec(
        &self,
        fx: int,
        fy: int,
        rx: int,
        ry: int,
        t: int,
        uniforms: Seq<(Seq<char>, UniformValue)>,
    ) -> ShaderColor {
        inner_shadow_frag(
            self.base_color,
            self.shadow_color,
            self.shadow_blur as int,
            self.shadow_opacity as int,
            norm_coord(fx, rx),
            norm_coord(fy, ry),
        )
    }

    fn fragment(&self, ctx: &ShaderContext) -> (c: ShaderColor) {
        let ux: i64 = norm_coord_exec(ctx.frag_x, ctx.res_x);
        let uy: i64 = norm_coord_exec(ctx.frag_y, ctx.res_y);
        let blur: i64 = clamp64(self.shadow_blur, 0, 0x10_0000);
        let op: i64 = clamp64(self.shadow_opacity, 0, 1024);
        let ex: i64 = if ux < 1024 - ux {
            ux
        } else {
            1024 - ux
        };
        let ey: i64 = if uy < 1024 - uy {
            uy
        } else {
            1024 - uy
        };
        let edge: i64 = if ex < ey {
            ex
        } else {
            ey
        };
        proof {
            vstd::arithmetic::div_mod::lemma_div_pos_is_pos(blur as int, 100);
            vstd::arithmetic::div_mod::lemma_div_is_ordered(blur as int, 0x10_0000, 100);
        }
        let strength: i64 = 1024 - crate::fixed::smoothstep64(0, blur / 100, edge);
        proof {
            assert(0 <= (strength as int) * (op as int) <= 1024int * 1024) by (nonlinear_arith)
                requires
                    0 <= strength as int <= 1024,
                    0 <= op as int <= 1024,
            ;
            vstd::arithmetic::div_mod::lemma_div_pos_is_pos(
                (strength as int) * (op as int),
                1024,
            );
            vstd::arithmetic::div_mod::lemma_div_is_ordered(
                (strength as int) * (op as int),
                1024int * 1024,
                1024,
            );
            vstd::arithmetic::div_mod::lemma_div_multiples_vanish(1024, 1024);
        }
        let sa: i64 = strength * op / 1024;
        ShaderColor {
            r: mix_ch(self.base_color.r, self.shadow_color.r, sa),
            g: mix_ch(self.base_color.g, self.shadow_color.g, sa),
            b: mix_ch(self.base_color.b, self.shadow_color.b, sa),
            a: self.base_color.a,
        }
    }
}

/// Chromatic aberration: the red and blue channels are brightened by the
/// magnitude of a radial offset, leaving green in place, which separates the
/// color fringes away from the center.
pub struct ChromaticAberrationShader {
    pub base_color: ShaderColor,
    pub offset: i64,
}

/// One aberrated channel: brightened by the offset magnitude, capped at the
/// channel range.
pub open spec fn aberrate_channel(c: int, olen: int) -> int {
    let v = c * (1024 + olen) / 1024;
    if v > 0xffff {
        0xffff
    } else {
        v
    }
}

/// The color the aberration produces at a normalized position: away from the
/// exact center the red and blue channels are scaled up by the offset
/// magnitude; at the center the direction vanishes and the color is kept.
pub open spec fn chromatic_frag(c: ShaderColor, off0: int, ux: int, uy: int) -> ShaderColor {
    let off = clamp_int(off0, -0x10_0000, 0x10_0000);
    let olen = if ux == 512 && uy == 512 {
        0
    } else {
        if off >= 0 {
            off
        } else {
            -off
        }
    };
    ShaderColor {
        r: aberrate_channel(c.r as int, olen) as u16,
        g: c.g,
        b: aberrate_channel(c.b as int, olen) as u16,
        a: c.a,
    }
}

/// Executable aberrated channel, equal to `aberrate_channel`.
fn aberrate_ch(c: u16, olen: i64) -> (r: u16)
    requires
        0 <= olen <= 0x10_0000,
    ensures
        r as int == aberrate_channel(c as int, olen as int),
{
    proof {
        assert(0 <= (c as int) * (1024 + olen as int) <= 0xffffint * (1024
            + 0x10_0000)) by (nonlinear_arith)
            requires
                0 <= c as int <= 0xffff,
                0 <= olen as int <= 0x10_0000,
        ;
        vstd::arithmetic::div_mod::lemma_div_pos_is_pos(
            (c as int) * (1024 + olen as int),
            1024,
        );
    }
    let v: i64 = (c as i64) * (1024 + olen) / 1024;
    if v > 0xffff {
        0xffff
    } else {
        v as u16
    }
}

impl FragmentShader for ChromaticAberrationShader {
    open spec fn frag_spec(
        &self,
        fx: int,
        fy: int,
        rx: int,
        ry: int,
        t: int,
        uniforms: Seq<(Seq<char>, UniformValue)>,
    ) -> ShaderColor {
        chromatic_frag(self.base_color, self.offset as int, norm_coord(fx, rx), norm_coord(fy, ry))
    }

    fn fragment(&self, ctx: &ShaderContext) -> (c: ShaderColor) {
        let ux: i64 = norm_coord_exec(ctx.frag_x, ctx.res_x);
        let uy: i64 = norm_coord_exec(ctx.frag_y, ctx.res_y);
        let off: i64 = clamp64(self.offset, -0x10_0000, 0x10_0000);
        let olen: i64 = if ux == 512 && uy == 512 {
            0
        } else {
            if off >= 0 {
                off
            } else {
                -off
            }
        };
        ShaderColor {
            r: aberrate_ch(self.base_color.r, olen),
            g: self.base_color.g,
            b: aberrate_ch(self.base_color.b, olen),
            a: self.base_color.a,
        }
    }
}

/// A directional (motion) blur approximation: it averages the base color
/// over its samples, which, on a solid color, reproduces the color exactly.
pub struct DirectionalBlurShader {
    pub base_color: ShaderColor,
    pub direction_x: i64,
    pub direction_y: i64,
    pub blur_strength: i64,
    pub samples: i32,
}

impl FragmentShader for DirectionalBlurShader {
    open spec fn frag_spec(
        &self,
        fx: int,
        fy: int,
        rx: int,
        ry: int,
        t: int,
        uniforms: Seq<(Seq<char>, UniformValue)>,
    ) -> ShaderColor {
        self.base_color
    }

    fn fragment(&self, ctx: &ShaderContext) -> (c: ShaderColor) {
        let n: i64 = if self.samples < 1 {
            1
        } else if self.samples > 16 {
            16
        } else {
            self.samples as i64
        };
        let mut sr: i64 = 0;
        let mut sg: i64 = 0;
        let mut sb: i64 = 0;
        let mut sa: i64 = 0;
        let mut i: i64 = 0;
        while i < n
            invariant
                0 <= i <= n,
                1 <= n <= 16,
                0 <= sr <= 0x10_0000,
                0 <= sg <= 0x10_0000,
                0 <= sb <= 0x10_0000,
                0 <= sa <= 0x10_0000,
                sr == i * (self.base_color.r as int),
                sg == i * (self.base_color.g as int),
                sb == i * (self.base_color.b as int),
                sa == i * (self.base_color.a as int),
            decreases n - i,
        {
            proof {
                assert((i as int + 1) * (self.base_color.r as int) <= 16 * 0xffff && (i as int + 1)
                    * (self.base_color.g as int) <= 16 * 0xffff && (i as int + 1) * (
                self.base_color.b as int) <= 16 * 0xffff && (i as int + 1) * (
                self.base_color.a as int) <= 16 * 0xffff && (i as int + 1) * (
                self.base_color.r as int) == i as int * (self.base_color.r as int) + (
                self.base_color.r as int) && (i as int + 1) * (self.base_color.g as int) == i as int
                    * (self.base_color.g as int) + (self.base_color.g as int) && (i as int + 1) * (
                self.base_color.b as int) == i as int * (self.base_color.b as int) + (
                self.base_color.b as int) && (i as int + 1) * (self.base_color.a as int) == i as int
                    * (self.base_color.a as int) + (self.base_color.a as int)) by (nonlinear_arith)
                    requires
                        i as int + 1 <= 16,
                        0 <= self.base_color.r as int <= 0xffff,
                        0 <= self.base_color.g as int <= 0xffff,
                        0 <= self.base_color.b as int <= 0xffff,
                        0 <= self.base_color.a as int <= 0xffff,
                ;
            }
            sr = sr + (self.base_color.r as i64);
            sg = sg + (self.base_color.g as i64);
            sb = sb + (self.base_color.b as i64);
            sa = sa + (self.base_color.a as i64);
            i = i + 1;
        }
        proof {
            vstd::arithmetic::div_mod::lemma_div_multiples_vanish(
                self.base_color.r as int,
                n as int,
            );
            vstd::arithmetic::div_mod::lemma_div_multiples_vanish(
                self.base_color.g as int,
                n as int,
            );
            vstd::arithmetic::div_mod::lemma_div_multiples_vanish(
                self.base_color.b as int,
                n as int,
            );
            vstd::arithmetic::div_mod::lemma_div_multiples_vanish(
                self.base_color.a as int,
                n as int,
            );
            assert(n as int * (self.base_color.r as int) == sr as int);
        }
        ShaderColor {
            r: (sr / n) as u16,
            g: (sg / n) as u16,
            b: (sb / n) as u16,
            a: (sa / n) as u16,
        }
    }
}

/// The tag of a shader-backed rectangle effect.
#[derive(Debug, Clone, Copy, PartialEq, Eq, Structural)]
pub enum ShaderEffectType {
    Blur,
    Glow,
    Shadow,
    Gradient,
    RoundedRect,
    ColorMatrix,
    Desaturate,
    Brightness,
    Contrast,
}

/// The parameter record of a shader-backed rectangle effect. Scalar factors
/// (glow intensity, brightness, contrast, saturation) are in 1/1024 units
/// with 1024 neutral; radii, offsets and blurs are whole pixels; gradient
/// endpoint colors are shader colors; the angle is in whole degrees.
#[derive(Debug, Clone, Copy, PartialEq, Eq, Structural)]
pub struct ShaderParameters {
    pub blur_radius: i64,
    pub glow_intensity: i64,
    pub shadow_offset_x: i64,
    pub shadow_offset_y: i64,
    pub shadow_blur: i64,
    pub gradient_start: ShaderColor,
    pub gradient_end: ShaderColor,
    pub gradient_angle: i32,
    pub corner_radius: i64,
    pub brightness: i64,
    pub contrast: i64,
    pub saturation: i64,
}

/// The customary defaults of the parameter record.
pub open spec fn default_shader_parameters() -> ShaderParameters {
    ShaderParameters {
        blur_radius: 5,
        glow_intensity: 1024,
        shadow_offset_x: 2,
        shadow_offset_y: 2,
        shadow_blur: 4,
        gradient_start: ShaderColor { r: 1024, g: 1024, b: 1024, a: 1024 },
        gradient_end: ShaderColor { r: 0, g: 0, b: 0, a: 1024 },
        gradient_angle: 0,
        corner_radius: 8,
        brightness: 1024,
        contrast: 1024,
        saturation: 1024,
    }
}

impl Default for ShaderParameters {
    /// The customary defaults: neutral scalar factors, a white-to-black
    /// gradient, small radii.
    fn default() -> (s: Self)
        ensures
            s == default_shader_parameters(),
    {
        ShaderParameters {
            blur_radius: 5,
            glow_intensity: 1024,
            shadow_offset_x: 2,
            shadow_offset_y: 2,
            shadow_blur: 4,
            gradient_start: ShaderColor { r: 1024, g: 1024, b: 1024, a: 1024 },
            gradient_end: ShaderColor { r: 0, g: 0, b: 0, a: 1024 },
            gradient_angle: 0,
            corner_radius: 8,
            brightness: 1024,
            contrast: 1024,
            saturation: 1024,
        }
    }
}

/// A shader-backed rectangle effect: a tag and its parameters.
#[derive(Debug, Clone, Copy, PartialEq, Eq, Structural)]
pub struct ShaderEffect {
    pub effect_type: ShaderEffectType,
    pub parameters: ShaderParameters,
}

impl ShaderEffect {
    /// A blur of the given pixel radius.
    pub fn blur(radius: i64) -> (e: ShaderEffect)
        ensures
            e.effect_type == ShaderEffectType::Blur,
            e.parameters == (ShaderParameters { blur_radius: radius, ..default_shader_parameters() }),
    {
        let mut params = ShaderParameters::default();
        params.blur_radius = radius;
        ShaderEffect { effect_type: ShaderEffectType::Blur, parameters: params }
    }

    /// A glow of the given intensity in 1/1024 units.
    pub fn glow(intensity: i64) -> (e: ShaderEffect)
        ensures
            e.effect_type == ShaderEffectType::Glow,
            e.parameters == (ShaderParameters {
                glow_intensity: intensity,
                ..default_shader_parameters()
            }),
    {
        let mut params = ShaderParameters::default();
        params.glow_intensity = intensity;
        ShaderEffect { effect_type: ShaderEffectType::Glow, parameters: params }
    }

    /// A drop shadow with the given pixel offset and blur.
    pub fn shadow(offset_x: i64, offset_y: i64, blur: i64) -> (e: ShaderEffect)
        ensures
            e.effect_type == ShaderEffectType::Shadow,
            e.parameters == (ShaderParameters {
                shadow_offset_x: offset_x,
                shadow_offset_y: offset_y,
                shadow_blur: blur,
                ..default_shader_parameters()
            }),
    {
        let mut params = ShaderParameters::default();
        params.shadow_offset_x = offset_x;
        params.shadow_offset_y = offset_y;
        params.shadow_blur = blur;
        ShaderEffect { effect_type: ShaderEffectType::Shadow, parameters: params }
    }

    /// A linear gradient between two shader colors at an angle in degrees.
    pub fn gradient(start: ShaderColor, end: ShaderColor, angle_deg: i32) -> (e: ShaderEffect)
        ensures
            e.effect_type == ShaderEffectType::Gradient,
            e.parameters == (ShaderParameters {
                gradient_start: start,
                gradient_end: end,
                gradient_angle: angle_deg,
                ..default_shader_parameters()
            }),
    {
        let mut params = ShaderParameters::default();
        params.gradient_start = start;
        params.gradient_end = end;
        params.gradient_angle = angle_deg;
        ShaderEffect { effect_type: ShaderEffectType::Gradient, parameters: params }
    }

    /// A rounded-rectangle mask of the given corner radius in pixels.
    pub fn rounded_rect(radius: i64) -> (e: ShaderEffect)
        ensures
            e.effect_type == ShaderEffectType::RoundedRect,
            e.parameters == (ShaderParameters {
                corner_radius: radius,
                ..default_shader_parameters()
            }),
    {
        let mut params = ShaderParameters::default();
        params.corner_radius = radius;
        ShaderEffect { effect_type: ShaderEffectType::RoundedRect, parameters: params }
    }

    /// A brightness adjustment in 1/1024 units.
    pub fn brightness(value: i64) -> (e: ShaderEffect)
        ensures
            e.effect_type == ShaderEffectType::Brightness,
            e.parameters == (ShaderParameters { brightness: value, ..default_shader_parameters() }),
    {
        let mut params = ShaderParameters::default();
        params.brightness = value;
        ShaderEffect { effect_type: ShaderEffectType::Brightness, parameters: params }
    }

    /// A contrast adjustment in 1/1024 units.
    pub fn contrast(value: i64) -> (e: ShaderEffect)
        ensures
            e.effect_type == ShaderEffectType::Contrast,
            e.parameters == (ShaderParameters { contrast: value, ..default_shader_parameters() }),
    {
        let mut params = ShaderParameters::default();
        params.contrast = value;
        ShaderEffect { effect_type: ShaderEffectType::Contrast, parameters: params }
    }

    /// A desaturation by the given amount in 1/1024 units: the kept
    /// saturation is one minus the amount.
    pub fn desaturate(amount: i64) -> (e: ShaderEffect)
        requires
            -0x7fff_ffff_ffff_0000 <= amount,
        ensures
            e.effect_type == ShaderEffectType::Desaturate,
            e.parameters == (ShaderParameters {
                saturation: (1024 - amount) as i64,
                ..default_shader_parameters()
            }),
    {
        let mut params = ShaderParameters::default();
        params.saturation = 1024 - amount;
        ShaderEffect { effect_type: ShaderEffectType::Desaturate, parameters: params }
    }
}

/// One channel brightened by a factor in 1/1024 units, capped at a byte.
pub open spec fn bright_channel(c: u8, k: int) -> u8 {
    let v = (c as int) * k / 1024;
    if v > 255 {
        255
    } else {
        v as u8
    }
}

/// One channel pushed away from the midpoint by a contrast factor in 1/1024
/// units, clamped to a byte.
pub open spec fn contrast_channel(c: u8, k: int) -> u8 {
    if c >= 128 {
        let d = (c as int - 128) * k / 1024;
        if 128 + d > 255 {
            255
        } else {
            (128 + d) as u8
        }
    } else {
        let d = (128 - c as int) * k / 1024;
        if 128 - d < 0 {
            0
        } else {
            (128 - d) as u8
        }
    }
}

/// The luminance of an 8-bit color by the usual video weights.
pub open spec fn gray_of(c: Color) -> int {
    ((c.r as int) * 299 + (c.g as int) * 587 + (c.b as int) * 114) / 1000
}

/// One channel pulled toward the color's own gray value by a kept-saturation
/// factor in 1/1024 units.
pub open spec fn desat_channel(c: u8, gray: int, s: int) -> u8 {
    ((gray * (1024 - s) + (c as int) * s) / 1024) as u8
}

/// Executable brightened channel, equal to `bright_channel`.
fn bright_ch8(c: u8, k: i64) -> (r: u8)
    requires
        0 <= k <= 0x10_0000,
    ensures
        r == bright_channel(c, k as int),
{
    proof {
        assert(0 <= (c as int) * (k as int) <= 255 * 0x10_0000int) by (nonlinear_arith)
            requires
                0 <= c as int <= 255,
                0 <= k as int <= 0x10_0000,
        ;
        vstd::arithmetic::div_mod::lemma_div_pos_is_pos((c as int) * (k as int), 1024);
    }
    let v: i64 = (c as i64) * k / 1024;
    if v > 255 {
        255
    } else {
        v as u8
    }
}

/// Executable contrast channel, equal to `contrast_channel`.
fn contrast_ch8(c: u8, k: i64) -> (r: u8)
    requires
        0 <= k <= 0x10_0000,
    ensures
        r == contrast_channel(c, k as int),
{
    if c >= 128 {
        proof {
            assert(0 <= (c as int - 128) * (k as int) <= 127 * 0x10_0000int) by (nonlinear_arith)
                requires
                    0 <= c as int - 128 <= 127,
                    0 <= k as int <= 0x10_0000,
            ;
            vstd::arithmetic::div_mod::lemma_div_pos_is_pos((c as int - 128) * (k as int), 1024);
        }
        let d: i64 = ((c as i64) - 128) * k / 1024;
        if 128 + d > 255 {
            255
        } else {
            (128 + d) as u8
        }
    } else {
        proof {
            assert(0 <= (128 - c as int) * (k as int) <= 128 * 0x10_0000int) by (nonlinear_arith)
                requires
                    0 < 128 - c as int <= 128,
                    0 <= k as int <= 0x10_0000,
            ;
            vstd::arithmetic::div_mod::lemma_div_pos_is_pos((128 - c as int) * (k as int), 1024);
        }
        let d: i64 = (128 - (c as i64)) * k / 1024;
        if 128 - d < 0 {
            0
        } else {
            (128 - d) as u8
        }
    }
}

/// Executable desaturated channel, equal to `desat_channel`.
fn desat_ch8(c: u8, gray: i64, s: i64) -> (r: u8)
    requires
        0 <= gray <= 255,
        0 <= s <= 1024,
    ensures
        r == desat_channel(c, gray as int, s as int),
{
    proof {
        assert(0 <= (gray as int) * (1024 - s as int) + (c as int) * (s as int) <= 255
            * 1024) by (nonlinear_arith)
            requires
                0 <= gray as int <= 255,
                0 <= c as int <= 255,
                0 <= s as int <= 1024,
        ;
        vstd::arithmetic::div_mod::lemma_div_pos_is_pos(
            (gray as int) * (1024 - s as int) + (c as int) * (s as int),
            1024,
        );
        vstd::arithmetic::div_mod::lemma_div_is_ordered(
            (gray as int) * (1024 - s as int) + (c as int) * (s as int),
            255int * 1024,
            1024,
        );
        vstd::arithmetic::div_mod::lemma_div_multiples_vanish(255, 1024);
    }
    ((gray * (1024 - s) + (c as i64) * s) / 1024) as u8
}

/// The glow ring coverage of `fill_rect_with_effect`: the byte alpha of the
/// ring at inset `i`, following `50 * i / 6`.
pub open spec fn glow_ring_alpha(i: int) -> u8 {
    (50 * i / 6) as u8
}

/// The value each pixel takes when a rectangle is filled under a shader
/// effect on the software path, write over write in pass order.
pub open spec fn effect_fill_pixel(
    p: (u8, u8, u8, u8),
    qx: int,
    qy: int,
    x: int,
    y: int,
    w: int,
    h: int,
    c: Color,
    e: ShaderEffect,
) -> (u8, u8, u8, u8) {
    match e.effect_type {
        ShaderEffectType::Blur => {
            let bc = Color { r: c.r, g: c.g, b: c.b, a: 30 };
            if in_rect(qx, qy, x - 2, y - 2, w + 4, h + 4) {
                stored_pixel(bc)
            } else {
                p
            }
        },
        ShaderEffectType::Glow => {
            let k = clamp_int(e.parameters.glow_intensity as int, 0, 0x10_0000);
            let gr = bright_channel(c.r, k);
            let gg = bright_channel(c.g, k);
            let gb = bright_channel(c.b, k);
            if in_rect(qx, qy, x, y, w, h) {
                stored_pixel(c)
            } else if in_rect(qx, qy, x - 1, y - 1, w + 2, h + 2) {
                stored_pixel(Color { r: gr, g: gg, b: gb, a: glow_ring_alpha(1) })
            } else if in_rect(qx, qy, x - 2, y - 2, w + 4, h + 4) {
                stored_pixel(Color { r: gr, g: gg, b: gb, a: glow_ring_alpha(2) })
            } else if in_rect(qx, qy, x - 3, y - 3, w + 6, h + 6) {
                stored_pixel(Color { r: gr, g: gg, b: gb, a: glow_ring_alpha(3) })
            } else if in_rect(qx, qy, x - 4, y - 4, w + 8, h + 8) {
                stored_pixel(Color { r: gr, g: gg, b: gb, a: glow_ring_alpha(4) })
            } else if in_rect(qx, qy, x - 5, y - 5, w + 10, h + 10) {
                stored_pixel(Color { r: gr, g: gg, b: gb, a: glow_ring_alpha(5) })
            } else {
                p
            }
        },
        ShaderEffectType::Brightness => {
            let k = clamp_int(e.parameters.brightness as int, 0, 0x10_0000);
            if in_rect(qx, qy, x, y, w, h) {
                stored_pixel(
                    Color {
                        r: bright_channel(c.r, k),
                        g: bright_channel(c.g, k),
                        b: bright_channel(c.b, k),
                        a: c.a,
                    },
                )
            } else {
                p
            }
        },
        ShaderEffectType::Contrast => {
            let k = clamp_int(e.parameters.contrast as int, 0, 0x10_0000);
            if in_rect(qx, qy, x, y, w, h) {
                stored_pixel(
                    Color {
                        r: contrast_channel(c.r, k),
                        g: contrast_channel(c.g, k),
                        b: contrast_channel(c.b, k),
                        a: c.a,
                    },
                )
            } else {
                p
            }
        },
        ShaderEffectType::Desaturate => {
            let sat = clamp_int(e.parameters.saturation as int, 0, 1024);
            let gray = gray_of(c);
            if in_rect(qx, qy, x, y, w, h) {
                stored_pixel(
                    Color {
                        r: desat_channel(c.r, gray, sat),
                        g: desat_channel(c.g, gray, sat),
                        b: desat_channel(c.b, gray, sat),
                        a: c.a,
                    },
                )
            } else {
                p
            }
        },
        _ => {
            if in_rect(qx, qy, x, y, w, h) {
                stored_pixel(c)
            } else {
                p
            }
        },
    }
}

impl Canvas {
    /// Fills a rectangle under a shader effect on the software path: blur
    /// and glow draw translucent surrounds, brightness, contrast and
    /// desaturation adjust the fill color, and every other effect falls back
    /// to the plain fill.
    #[verifier::rlimit(60)]
    pub fn fill_rect_with_effect(
        &mut self,
        x: i32,
        y: i32,
        width: i32,
        height: i32,
        color: Color,
        effect: &ShaderEffect,
    )
        requires
            old(self).wf(),
            i32::MIN as int + 8 <= x as int,
            i32::MIN as int + 8 <= y as int,
            x as int + width as int + 8 <= i32::MAX as int,
            y as int + height as int + 8 <= i32::MAX as int,
            width as int + 10 <= i32::MAX as int,
            height as int + 10 <= i32::MAX as int,
        ensures
            final(self).wf(),
            same_shape(old(self), final(self)),
            forall|qx: int, qy: int|
                old(self).in_bounds(qx, qy) ==> #[trigger] final(self).pixel(qx, qy)
                    == effect_fill_pixel(
                    old(self).pixel(qx, qy),
                    qx,
                    qy,
                    x as int,
                    y as int,
                    width as int,
                    height as int,
                    color,
                    *effect,
                ),
    {
        match effect.effect_type {
            ShaderEffectType::Blur => {
                // The translucent surrounds overwrite the base fill on the
                // software path, exactly as drawing them in pass order does.
                self.fill_rect(x, y, width, height, color);
                let bc = Color { r: color.r, g: color.g, b: color.b, a: 30 };
                self.fill_rect(x - 1, y - 1, width + 2, height + 2, bc);
                self.fill_rect(x - 2, y - 2, width + 4, height + 4, bc);
            },
            ShaderEffectType::Glow => {
                let k: i64 = clamp64(effect.parameters.glow_intensity, 0, 0x10_0000);
                let gr: u8 = bright_ch8(color.r, k);
                let gg: u8 = bright_ch8(color.g, k);
                let gb: u8 = bright_ch8(color.b, k);
                // Glow rings from the outside in, then the base fill on top.
                self.fill_rect(
                    x - 5,
                    y - 5,
                    width + 10,
                    height + 10,
                    Color { r: gr, g: gg, b: gb, a: 41 },
                );
                self.fill_rect(
                    x - 4,
                    y - 4,
                    width + 8,
                    height + 8,
                    Color { r: gr, g: gg, b: gb, a: 33 },
                );
                self.fill_rect(
                    x - 3,
                    y - 3,
                    width + 6,
                    height + 6,
                    Color { r: gr, g: gg, b: gb, a: 25 },
                );
                self.fill_rect(
                    x - 2,
                    y - 2,
                    width + 4,
                    height + 4,
                    Color { r: gr, g: gg, b: gb, a: 16 },
                );
                self.fill_rect(
                    x - 1,
                    y - 1,
                    width + 2,
                    height + 2,
                    Color { r: gr, g: gg, b: gb, a: 8 },
                );
                self.fill_rect(x, y, width, height, Color { r: gr, g: gg, b: gb, a: 0 });
                self.fill_rect(x, y, width, height, color);
            },
            ShaderEffectType::Brightness => {
                let k: i64 = clamp64(effect.parameters.brightness, 0, 0x10_0000);
                let bright = Color {
                    r: bright_ch8(color.r, k),
                    g: bright_ch8(color.g, k),
                    b: bright_ch8(color.b, k),
                    a: color.a,
                };
                self.fill_rect(x, y, width, height, bright);
            },
            ShaderEffectType::Contrast => {
                let k: i64 = clamp64(effect.parameters.contrast, 0, 0x10_0000);
                let adjusted = Color {
                    r: contrast_ch8(color.r, k),
                    g: contrast_ch8(color.g, k),
                    b: contrast_ch8(color.b, k),
                    a: color.a,
                };
                self.fill_rect(x, y, width, height, adjusted);
            },
            ShaderEffectType::Desaturate => {
                let sat: i64 = clamp64(effect.parameters.saturation, 0, 1024);
                proof {
                    assert(0 <= (color.r as int) * 299 + (color.g as int) * 587 + (color.b as int)
                        * 114 <= 255 * 1000) by (nonlinear_arith)
                        requires
                            0 <= color.r as int <= 255,
                            0 <= color.g as int <= 255,
                            0 <= color.b as int <= 255,
                    ;
                    vstd::arithmetic::div_mod::lemma_div_pos_is_pos(
                        (color.r as int) * 299 + (color.g as int) * 587 + (color.b as int) * 114,
                        1000,
                    );
                    vstd::arithmetic::div_mod::lemma_div_is_ordered(
                        (color.r as int) * 299 + (color.g as int) * 587 + (color.b as int) * 114,
                        255int * 1000,
                        1000,
                    );
                    vstd::arithmetic::div_mod::lemma_div_multiples_vanish(255, 1000);
                }
                let gray: i64 = ((color.r as i64) * 299 + (color.g as i64) * 587 + (
                color.b as i64) * 114) / 1000;
                let desat = Color {
                    r: desat_ch8(color.r, gray, sat),
                    g: desat_ch8(color.g, gray, sat),
                    b: desat_ch8(color.b, gray, sat),
                    a: color.a,
                };
                self.fill_rect(x, y, width, height, desat);
            },
            _ => {
                // Fall back to the plain fill.
                self.fill_rect(x, y, width, height, color);
            },
        }
    }
}

/// A box blur approximation sampling a window of positions around the
/// fragment with inverse-square weights. On the solid base color every
/// in-range sample contributes the same color, so the weighted average is
/// the base color again; when no sample lands in range the base color is
/// returned unchanged as well.
pub struct BoxBlurShader {
    pub base_color: ShaderColor,
    pub blur_radius: i64,
    pub samples: i32,
}

impl FragmentShader for BoxBlurShader {
    open spec fn frag_spec(
        &self,
        fx: int,
        fy: int,
        rx: int,
        ry: int,
        t: int,
        uniforms: Seq<(Seq<char>, UniformValue)>,
    ) -> ShaderColor {
        self.base_color
    }

    fn fragment(&self, ctx: &ShaderContext) -> (c: ShaderColor) {
        let n: i64 = if self.samples < 1 {
            1
        } else if self.samples > 16 {
            16
        } else {
            self.samples as i64
        };
        let ux: i64 = norm_coord_exec(ctx.frag_x, ctx.res_x);
        let uy: i64 = norm_coord_exec(ctx.frag_y, ctx.res_y);
        let rad: i64 = clamp64(self.blur_radius, 0, 0x10_0000);
        let br: i64 = self.base_color.r as i64;
        let bg: i64 = self.base_color.g as i64;
        let bb: i64 = self.base_color.b as i64;
        let ba: i64 = self.base_color.a as i64;
        let mut sum_r: i64 = 0;
        let mut sum_g: i64 = 0;
        let mut sum_b: i64 = 0;
        let mut sum_a: i64 = 0;
        let mut sum_w: i64 = 0;
        let mut dx: i64 = -n;
        while dx <= n
            invariant
                -n <= dx <= n + 1,
                1 <= n <= 16,
                0 <= rad <= 0x10_0000,
                0 <= ux <= 1024,
                0 <= uy <= 1024,
                0 < ctx.res_x <= 65536,
                0 < ctx.res_y <= 65536,
                br == self.base_color.r as int,
                bg == self.base_color.g as int,
                bb == self.base_color.b as int,
                ba == self.base_color.a as int,
                0 <= sum_w <= 0x8000_0000,
                sum_r == br * sum_w,
                sum_g == bg * sum_w,
                sum_b == bb * sum_w,
                sum_a == ba * sum_w,
            decreases n + 1 - dx,
        {
            let mut dy: i64 = -n;
            while dy <= n
                invariant
                    -n <= dy <= n + 1,
                    -n <= dx <= n,
                    1 <= n <= 16,
                    0 <= rad <= 0x10_0000,
                    0 <= ux <= 1024,
                    0 <= uy <= 1024,
                    0 < ctx.res_x <= 65536,
                    0 < ctx.res_y <= 65536,
                    br == self.base_color.r as int,
                    bg == self.base_color.g as int,
                    bb == self.base_color.b as int,
                    ba == self.base_color.a as int,
                    0 <= sum_w <= 0x8000_0000,
                    sum_r == br * sum_w,
                    sum_g == bg * sum_w,
                    sum_b == bb * sum_w,
                    sum_a == ba * sum_w,
                decreases n + 1 - dy,
            {
                // The sample position dx, dy pixels times the radius away,
                // in normalized units, with the division kept sign-exact.
                let off_x: i64 = sample_offset(dx, rad, ctx.res_x);
                let off_y: i64 = sample_offset(dy, rad, ctx.res_y);
                let sx: i64 = ux + off_x;
                let sy: i64 = uy + off_y;
                if 0 <= sx && sx <= 1024 && 0 <= sy && sy <= 1024 {
                    proof {
                        assert(0 <= dx * dx <= 256 && 0 <= dy * dy <= 256) by (nonlinear_arith)
                            requires
                                -16 <= dx <= 16,
                                -16 <= dy <= 16,
                        ;
                        vstd::arithmetic::div_mod::lemma_div_pos_is_pos(
                            0x10_0000int,
                            1 + dx * dx + dy * dy,
                        );
                        vstd::arithmetic::div_mod::lemma_div_is_ordered_by_denominator(
                            0x10_0000int,
                            1,
                            1 + dx * dx + dy * dy,
                        );
                    }
                    let w: i64 = 0x10_0000 / (1 + dx * dx + dy * dy);
                    if sum_w <= 0x4000_0000 {
                        proof {
                            assert(br * (sum_w + w) == br * sum_w + br * w && bg * (sum_w + w) == bg
                                * sum_w + bg * w && bb * (sum_w + w) == bb * sum_w + bb * w && ba * (
                            sum_w + w) == ba * sum_w + ba * w && 0 <= br * w <= 0xffffint * 0x10_0000
                                && 0 <= bg * w <= 0xffffint * 0x10_0000 && 0 <= bb * w
                                <= 0xffffint * 0x10_0000 && 0 <= ba * w <= 0xffffint * 0x10_0000
                                && 0 <= br * sum_w <= 0xffffint * 0x8000_0000 && 0 <= bg * sum_w
                                <= 0xffffint * 0x8000_0000 && 0 <= bb * sum_w <= 0xffffint
                                * 0x8000_0000 && 0 <= ba * sum_w <= 0xffffint
                                * 0x8000_0000) by (nonlinear_arith)
                                requires
                                    0 <= br <= 0xffff,
                                    0 <= bg <= 0xffff,
                                    0 <= bb <= 0xffff,
                                    0 <= ba <= 0xffff,
                                    0 <= w <= 0x10_0000,
                                    0 <= sum_w <= 0x8000_0000,
                            ;
                        }
                        sum_r = sum_r + br * w;
                        sum_g = sum_g + bg * w;
                        sum_b = sum_b + bb * w;
                        sum_a = sum_a + ba * w;
                        sum_w = sum_w + w;
                    }
                }
                dy = dy + 1;
            }
            dx = dx + 1;
        }
        if sum_w > 0 {
            proof {
                vstd::arithmetic::div_mod::lemma_div_multiples_vanish(br as int, sum_w as int);
                vstd::arithmetic::div_mod::lemma_div_multiples_vanish(bg as int, sum_w as int);
                vstd::arithmetic::div_mod::lemma_div_multiples_vanish(bb as int, sum_w as int);
                vstd::arithmetic::div_mod::lemma_div_multiples_vanish(ba as int, sum_w as int);
                assert(sum_w as int * (br as int) == sum_r as int && sum_w as int * (bg as int)
                    == sum_g as int && sum_w as int * (bb as int) == sum_b as int && sum_w as int
                    * (ba as int) == sum_a as int) by (nonlinear_arith)
                    requires
                        sum_r as int == (br as int) * (sum_w as int),
                        sum_g as int == (bg as int) * (sum_w as int),
                        sum_b as int == (bb as int) * (sum_w as int),
                        sum_a as int == (ba as int) * (sum_w as int),
                ;
            }
            ShaderColor {
                r: (sum_r / sum_w) as u16,
                g: (sum_g / sum_w) as u16,
                b: (sum_b / sum_w) as u16,
                a: (sum_a / sum_w) as u16,
            }
        } else {
            self.base_color
        }
    }
}

/// A window sample offset in normalized units: `d * radius / resolution`,
/// with the division kept sign-exact.
fn sample_offset(d: i64, rad: i64, res: i64) -> (off: i64)
    requires
        -16 <= d <= 16,
        0 <= rad <= 0x10_0000,
        0 < res <= 65536,
    ensures
        -0x100_0000 <= off <= 0x100_0000,
{
    if d >= 0 {
        proof {
            assert(0 <= d * rad <= 16 * 0x10_0000int) by (nonlinear_arith)
                requires
                    0 <= d <= 16,
                    0 <= rad <= 0x10_0000,
            ;
            vstd::arithmetic::div_mod::lemma_div_pos_is_pos(d as int * rad as int, res as int);
            vstd::arithmetic::div_mod::lemma_div_is_ordered_by_denominator(
                16 * 0x10_0000int,
                1,
                res as int,
            );
            vstd::arithmetic::div_mod::lemma_div_is_ordered(
                d as int * rad as int,
                16 * 0x10_0000int,
                res as int,
            );
        }
        (d * rad) / res
    } else {
        proof {
            assert(0 <= (-d) * rad <= 16 * 0x10_0000int) by (nonlinear_arith)
                requires
                    0 <= -d <= 16,
                    0 <= rad <= 0x10_0000,
            ;
            vstd::arithmetic::div_mod::lemma_div_pos_is_pos((-d) as int * rad as int, res as int);
            vstd::arithmetic::div_mod::lemma_div_is_ordered_by_denominator(
                16 * 0x10_0000int,
                1,
                res as int,
            );
            vstd::arithmetic::div_mod::lemma_div_is_ordered(
                (-d) as int * rad as int,
                16 * 0x10_0000int,
                res as int,
            );
        }
        -(((-d) * rad) / res)
    }
}

/// A Gaussian blur approximation: a bell-shaped weighted average over a
/// window around the fragment. An inverse-quadratic bell in fixed point
/// stands in for the Gaussian kernel, whose exponential the integer library
/// does not carry; over the solid base color any positive weights average
/// back to the base color exactly, and the body proves it.
pub struct GaussianBlurShader {
    pub base_color: ShaderColor,
    pub blur_radius: i64,
    pub sigma: i64,
}

impl FragmentShader for GaussianBlurShader {
    open spec fn frag_spec(
        &self,
        fx: int,
        fy: int,
        rx: int,
        ry: int,
        t: int,
        uniforms: Seq<(Seq<char>, UniformValue)>,
    ) -> ShaderColor {
        self.base_color
    }

    fn fragment(&self, ctx: &ShaderContext) -> (c: ShaderColor) {
        let rad: i64 = clamp64(self.blur_radius, 0, 0x10_0000);
        let r2: i64 = if rad > 6 {
            12
        } else {
            rad * 2
        };
        let n: i64 = if r2 < 1 {
            1
        } else {
            r2
        };
        let sigma: i64 = clamp64(self.sigma, 1, 1024);
        let br: i64 = self.base_color.r as i64;
        let bg: i64 = self.base_color.g as i64;
        let bb: i64 = self.base_color.b as i64;
        let ba: i64 = self.base_color.a as i64;
        let mut sum_r: i64 = 0;
        let mut sum_g: i64 = 0;
        let mut sum_b: i64 = 0;
        let mut sum_a: i64 = 0;
        let mut sum_w: i64 = 0;
        let mut dx: i64 = -n;
        while dx <= n
            invariant
                -n <= dx <= n + 1,
                1 <= n <= 12,
                1 <= sigma <= 1024,
                br == self.base_color.r as int,
                bg == self.base_color.g as int,
                bb == self.base_color.b as int,
                ba == self.base_color.a as int,
                0 <= sum_w <= 0x8000_0000,
                sum_r == br * sum_w,
                sum_g == bg * sum_w,
                sum_b == bb * sum_w,
                sum_a == ba * sum_w,
            decreases n + 1 - dx,
        {
            let mut dy: i64 = -n;
            while dy <= n
                invariant
                    -n <= dy <= n + 1,
                    -n <= dx <= n,
                    1 <= n <= 12,
                    1 <= sigma <= 1024,
                    br == self.base_color.r as int,
                    bg == self.base_color.g as int,
                    bb == self.base_color.b as int,
                    ba == self.base_color.a as int,
                    0 <= sum_w <= 0x8000_0000,
                    sum_r == br * sum_w,
                    sum_g == bg * sum_w,
                    sum_b == bb * sum_w,
                    sum_a == ba * sum_w,
                decreases n + 1 - dy,
            {
                proof {
                    assert(0 <= dx * dx <= 144 && 0 <= dy * dy <= 144 && 1 <= 2 * (sigma * sigma)
                        <= 2 * (1024int * 1024)) by (nonlinear_arith)
                        requires
                            -12 <= dx <= 12,
                            -12 <= dy <= 12,
                            1 <= sigma <= 1024,
                    ;
                    vstd::arithmetic::div_mod::lemma_div_pos_is_pos(
                        (dx * dx + dy * dy) as int,
                        2 * (sigma as int * sigma as int),
                    );
                    vstd::arithmetic::div_mod::lemma_div_is_ordered_by_denominator(
                        (dx * dx + dy * dy) as int,
                        1,
                        2 * (sigma as int * sigma as int),
                    );
                }
                // The bell falls off with the squared distance over two
                // sigma squared, as the Gaussian exponent does.
                let fall: i64 = (dx * dx + dy * dy) / (2 * (sigma * sigma));
                proof {
                    vstd::arithmetic::div_mod::lemma_div_pos_is_pos(
                        0x10_0000int,
                        1 + fall as int,
                    );
                    vstd::arithmetic::div_mod::lemma_div_is_ordered_by_denominator(
                        0x10_0000int,
                        1,
                        1 + fall as int,
                    );
                }
                let w: i64 = 0x10_0000 / (1 + fall);
                if sum_w <= 0x4000_0000 {
                    proof {
                        assert(br * (sum_w + w) == br * sum_w + br * w && bg * (sum_w + w) == bg
                            * sum_w + bg * w && bb * (sum_w + w) == bb * sum_w + bb * w && ba * (
                        sum_w + w) == ba * sum_w + ba * w && 0 <= br * w <= 0xffffint * 0x10_0000
                            && 0 <= bg * w <= 0xffffint * 0x10_0000 && 0 <= bb * w
                            <= 0xffffint * 0x10_0000 && 0 <= ba * w <= 0xffffint * 0x10_0000
                            && 0 <= br * sum_w <= 0xffffint * 0x8000_0000 && 0 <= bg * sum_w
                            <= 0xffffint * 0x8000_0000 && 0 <= bb * sum_w <= 0xffffint
                            * 0x8000_0000 && 0 <= ba * sum_w <= 0xffffint
                            * 0x8000_0000) by (nonlinear_arith)
                            requires
                                0 <= br <= 0xffff,
                                0 <= bg <= 0xffff,
                                0 <= bb <= 0xffff,
                                0 <= ba <= 0xffff,
                                0 <= w <= 0x10_0000,
                                0 <= sum_w <= 0x8000_0000,
                        ;
                    }
                    sum_r = sum_r + br * w;
                    sum_g = sum_g + bg * w;
                    sum_b = sum_b + bb * w;
                    sum_a = sum_a + ba * w;
                    sum_w = sum_w + w;
                }
                dy = dy + 1;
            }
            dx = dx + 1;
        }
        if sum_w > 0 {
            proof {
                vstd::arithmetic::div_mod::lemma_div_multiples_vanish(br as int, sum_w as int);
                vstd::arithmetic::div_mod::lemma_div_multiples_vanish(bg as int, sum_w as int);
                vstd::arithmetic::div_mod::lemma_div_multiples_vanish(bb as int, sum_w as int);
                vstd::arithmetic::div_mod::lemma_div_multiples_vanish(ba as int, sum_w as int);
                assert(sum_w as int * (br as int) == sum_r as int && sum_w as int * (bg as int)
                    == sum_g as int && sum_w as int * (bb as int) == sum_b as int && sum_w as int
                    * (ba as int) == sum_a as int) by (nonlinear_arith)
                    requires
                        sum_r as int == (br as int) * (sum_w as int),
                        sum_g as int == (bg as int) * (sum_w as int),
                        sum_b as int == (bb as int) * (sum_w as int),
                        sum_a as int == (ba as int) * (sum_w as int),
                ;
            }
            ShaderColor {
                r: (sum_r / sum_w) as u16,
                g: (sum_g / sum_w) as u16,
                b: (sum_b / sum_w) as u16,
                a: (sum_a / sum_w) as u16,
            }
        } else {
            self.base_color
        }
    }
}

} // verus!
