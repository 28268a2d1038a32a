//! Tests of the fixed-point helpers, the shader engine and its built-in
//! evaluators, the backend types, and the plain UI data types.

use mochi_render::backend::{DrawMode, GpuBackend, GpuBackendType, ShaderProgram, SoftwareBackend};
use mochi_render::canvas::Canvas;
use mochi_render::color::Color;
use mochi_render::fixed;
use mochi_render::shader::{
    BoxBlurShader, ChromaticAberrationShader, DirectionalBlurShader, DropShadowShader,
    FragmentShader, GaussianBlurShader, GlowShader, GradientShader, InnerShadowShader,
    NoiseShader, RadialGradientShader, RoundedRectShader, ShaderColor, ShaderContext,
    ShaderEffect, ShaderEffectType, UniformValue, WaveShader,
};
use mochi_render::ui::{dialog, DialogButton, DialogButtonStyle, Positioned, Rect, WindowConfig};

#[test]
fn isqrt_exact_values() {
    assert_eq!(fixed::isqrt(0), 0);
    assert_eq!(fixed::isqrt(1), 1);
    assert_eq!(fixed::isqrt(15), 3);
    assert_eq!(fixed::isqrt(16), 4);
    assert_eq!(fixed::isqrt(1 << 62), 1 << 31);
}

#[test]
fn sine_and_cosine_exact_at_quarters() {
    assert_eq!(fixed::sin_deg(0), 0);
    assert_eq!(fixed::sin_deg(90), 1024);
    assert_eq!(fixed::sin_deg(180), 0);
    assert_eq!(fixed::sin_deg(270), -1024);
    assert_eq!(fixed::sin_deg(-90), -1024);
    assert_eq!(fixed::cos_deg(0), 1024);
    assert_eq!(fixed::cos_deg(90), 0);
    assert_eq!(fixed::cos_deg(360), 1024);
}

#[test]
fn shading_helpers_exact_values() {
    assert_eq!(fixed::clamp64(5, 0, 3), 3);
    assert_eq!(fixed::clamp64(-5, 0, 3), 0);
    assert_eq!(fixed::mix64(0, 1024, 512), 512);
    assert_eq!(fixed::mix64(100, 100, 700), 100);
    // smoothstep at the midpoint of the unit interval is one half.
    assert_eq!(fixed::smoothstep64(0, 1024, 512), 512);
    assert_eq!(fixed::smoothstep64(0, 1024, -5), 0);
    assert_eq!(fixed::smoothstep64(0, 1024, 2000), 1024);
    assert_eq!(fixed::step64(100, 99), 0);
    assert_eq!(fixed::step64(100, 100), 1024);
    assert_eq!(fixed::fract64(2048 + 37), 37);
    assert_eq!(fixed::fract64(-1), 1023);
    assert_eq!(fixed::length64(3, 4), 5);
    assert_eq!(fixed::length64(-3, -4), 5);
    assert_eq!(fixed::FP_ONE, 1024);
    assert_eq!(fixed::abs64(-7), 7);
    assert_eq!(fixed::min64(3, -2), -2);
    assert_eq!(fixed::max64(3, -2), 3);
    // (1 * 2 + 3 * 4) scaled: 14336 / 1024 == 14.
    assert_eq!(fixed::dot64(1024, 3072, 2048, 4096), 14336);
    assert_eq!(fixed::distance64(0, 0, 3, 4), 5);
    assert_eq!(fixed::normalize64(0, 0), (0, 0));
    assert_eq!(fixed::normalize64(512, 0), (1024, 0));
    assert_eq!(fixed::normalize64(-512, 0), (-1024, 0));
}

#[test]
fn uniforms_latest_binding_wins() {
    let mut ctx = ShaderContext::new(64, 64);
    ctx.set_uniform("strength", UniformValue::F(7));
    ctx.set_uniform("dir", UniformValue::V2(1, 2));
    ctx.set_uniform("strength", UniformValue::F(9));
    assert_eq!(ctx.get_float("strength"), 9);
    assert_eq!(ctx.get_vec2("dir"), (1, 2));
    // Absent or differently-shaped bindings read as zeros.
    assert_eq!(ctx.get_float("missing"), 0);
    assert_eq!(ctx.get_vec3("dir"), (0, 0, 0));
    assert_eq!(ctx.get_vec4("dir"), (0, 0, 0, 0));
}

#[test]
fn gradient_shader_start_corner_is_start_color() {
    let sh = GradientShader {
        color_start: ShaderColor { r: 1024, g: 0, b: 0, a: 1024 },
        color_end: ShaderColor { r: 0, g: 0, b: 1024, a: 1024 },
        angle_deg: 0,
    };
    let ctx = ShaderContext::new(100, 100);
    let c = sh.fragment(&ctx);
    assert_eq!(c, ShaderColor { r: 1024, g: 0, b: 0, a: 1024 });
}

#[test]
fn radial_shader_center_is_center_color() {
    let sh = RadialGradientShader {
        color_center: ShaderColor { r: 1024, g: 1024, b: 1024, a: 1024 },
        color_edge: ShaderColor { r: 0, g: 0, b: 0, a: 1024 },
        center_x: 0,
        center_y: 0,
        radius: 512,
    };
    let ctx = ShaderContext::new(128, 128);
    let c = sh.fragment(&ctx);
    assert_eq!(c, ShaderColor { r: 1024, g: 1024, b: 1024, a: 1024 });
}

#[test]
fn glow_shader_brightens_without_overflow() {
    let sh = GlowShader {
        base_color: ShaderColor { r: 512, g: 512, b: 512, a: 1024 },
        glow_intensity: 1024,
    };
    let ctx = ShaderContext::new(10, 10);
    let c = sh.fragment(&ctx);
    assert!(c.r > 512 && c.r <= 1024);
    assert_eq!(c.a, 1024);
}

#[test]
fn rounded_rect_shader_is_opaque_inside_and_clear_outside() {
    let sh = RoundedRectShader {
        color: ShaderColor { r: 1024, g: 0, b: 0, a: 1024 },
        rect_x: 0,
        rect_y: 0,
        rect_w: 64,
        rect_h: 64,
        corner_radius: 8,
    };
    let mut ctx = ShaderContext::new(64, 64);
    ctx.frag_x = 32;
    ctx.frag_y = 32;
    assert_eq!(sh.fragment(&ctx).a, 1024);
    ctx.frag_x = 0;
    ctx.frag_y = 0;
    assert_eq!(sh.fragment(&ctx).a, 0);
}

#[test]
fn execute_shader_writes_converted_colors() {
    let sh = GradientShader {
        color_start: ShaderColor { r: 1024, g: 0, b: 0, a: 1024 },
        color_end: ShaderColor { r: 0, g: 0, b: 1024, a: 1024 },
        angle_deg: 0,
    };
    let mut c = Canvas::new(vec![0u8; 16 * 16 * 4], 16, 16);
    c.execute_shader(0, 0, 16, 16, &sh);
    // The start corner converts 1024/1024 to 255.
    assert_eq!(c.get_pixel(0, 0), (0, 0, 255, 255));
}

#[test]
fn execute_shader_skips_transparent_results() {
    // A rounded-rectangle shape far away from every fragment evaluates to a
    // fully transparent color, so the driver leaves the canvas alone.
    let sh = RoundedRectShader {
        color: ShaderColor { r: 1024, g: 1024, b: 1024, a: 1024 },
        rect_x: 10000,
        rect_y: 10000,
        rect_w: 8,
        rect_h: 8,
        corner_radius: 2,
    };
    let mut c = Canvas::new(vec![33u8; 4 * 4 * 4], 4, 4);
    c.execute_shader(0, 0, 4, 4, &sh);
    assert_eq!(c.get_pixel(2, 2), (33, 33, 33, 33));
}

#[test]
fn fill_rect_with_effect_brightness_scales_channels() {
    let mut c = Canvas::new(vec![0u8; 8 * 8 * 4], 8, 8);
    let e = ShaderEffect::brightness(2048);
    assert_eq!(e.effect_type, ShaderEffectType::Brightness);
    c.fill_rect_with_effect(0, 0, 8, 8, Color::rgb(50, 60, 70), &e);
    // Each channel is doubled.
    assert_eq!(c.get_pixel(4, 4), (140, 120, 100, 255));
}

#[test]
fn fill_rect_with_effect_desaturate_full_gives_gray() {
    let mut c = Canvas::new(vec![0u8; 4 * 4 * 4], 4, 4);
    let e = ShaderEffect::desaturate(1024);
    c.fill_rect_with_effect(0, 0, 4, 4, Color::rgb(255, 0, 0), &e);
    // Full desaturation of pure red gives its video gray: 255 * 299 / 1000.
    assert_eq!(c.get_pixel(1, 1), (76, 76, 76, 255));
}

#[test]
fn software_backend_starts_zeroed_and_clears() {
    let mut b = SoftwareBackend::new(4, 2);
    assert_eq!(b.backend_type(), GpuBackendType::NoBackend);
    assert_eq!(b.get_buffer().len(), 4 * 2 * 4);
    assert!(b.get_buffer().iter().all(|&v| v == 0));
    b.clear(Color::rgba(1, 2, 3, 4));
    let buf = b.get_buffer();
    assert_eq!(&buf[0..4], &[3, 2, 1, 4]);
    assert_eq!(&buf[28..32], &[3, 2, 1, 4]);
}

#[test]
fn software_backend_viewport_resizes() {
    let mut b = SoftwareBackend::new(2, 2);
    b.viewport(0, 0, 3, 5);
    assert_eq!(b.get_buffer().len(), 3 * 5 * 4);
    assert_eq!(b.create_shader("v", "f"), Ok(0));
    assert_eq!(b.create_buffer(&vec![1024, 2048]), Ok(0));
    b.use_shader(0);
    b.draw_arrays(DrawMode::Triangles, 0, 3);
}

#[test]
fn shader_program_starts_uncompiled() {
    let p = ShaderProgram::new(String::from("vertex"), String::from("fragment"));
    assert_eq!(p.id, 0);
    assert_eq!(p.vertex_source, "vertex");
    assert_eq!(p.fragment_source, "fragment");
}

#[test]
fn dialog_builder_accumulates() {
    let d = dialog(String::from("Title"), String::from("Body"))
        .icon(String::from("!"))
        .button(DialogButton::new(String::from("OK"), DialogButtonStyle::Primary))
        .button(DialogButton::new(String::from("Cancel"), DialogButtonStyle::Secondary))
        .centered(1000, 700);
    assert_eq!(d.buttons.len(), 2);
    assert_eq!(d.rect.x, (1000 - 380) / 2);
    assert_eq!(d.rect.y, (700 - 310) / 2);
    assert_eq!(d.icon.as_deref(), Some("!"));
    assert_eq!(d.buttons[0].background_color(), Color::rgb(0, 122, 255));
    assert_eq!(d.buttons[1].text_color(), Color::rgb(60, 60, 60));
}

#[test]
fn rect_and_window_config() {
    let r = Rect::new(1, 2, 3, 4);
    assert_eq!((r.x, r.y, r.width, r.height), (1, 2, 3, 4));
    let w = WindowConfig::default();
    assert_eq!((w.width, w.height), (800, 600));
    assert_eq!(w.min_width, Some(400));
    assert!(!w.decorations);
}

#[test]
fn wave_shader_keeps_alpha_and_dims_channels() {
    let sh = WaveShader {
        base_color: ShaderColor { r: 1024, g: 512, b: 256, a: 777 },
        amplitude: 2048,
        frequency: 4096,
    };
    let mut ctx = ShaderContext::new(64, 64);
    ctx.frag_x = 10;
    ctx.frag_y = 20;
    let c = sh.fragment(&ctx);
    assert_eq!(c.a, 777);
    // The brightness factor lies in [0.8, 1.0] of the base channels.
    assert!(c.r >= 819 && c.r <= 1024);
}

#[test]
fn noise_shader_stays_in_range_and_is_deterministic() {
    let sh = NoiseShader { base_color: ShaderColor { r: 1024, g: 1024, b: 1024, a: 1024 }, scale: 8192 };
    let mut ctx = ShaderContext::new(64, 64);
    ctx.frag_x = 13;
    ctx.frag_y = 29;
    let a = sh.fragment(&ctx);
    let b = sh.fragment(&ctx);
    assert_eq!(a, b);
    assert!(a.r >= 717 && a.r <= 1024);
    assert_eq!(a.a, 1024);
}

#[test]
fn inner_shadow_center_keeps_base_color() {
    let sh = InnerShadowShader {
        base_color: ShaderColor { r: 900, g: 800, b: 700, a: 1000 },
        shadow_color: ShaderColor { r: 0, g: 0, b: 0, a: 1024 },
        offset_x: 2,
        offset_y: 2,
        shadow_blur: 4096,
        shadow_opacity: 512,
    };
    let mut ctx = ShaderContext::new(100, 100);
    ctx.frag_x = 50;
    ctx.frag_y = 50;
    // At the center the edge distance exceeds the falloff band: no shadow.
    let c = sh.fragment(&ctx);
    assert_eq!(c, ShaderColor { r: 900, g: 800, b: 700, a: 1000 });
}

#[test]
fn drop_shadow_center_shows_base() {
    let sh = DropShadowShader {
        base_color: ShaderColor { r: 1024, g: 0, b: 0, a: 1024 },
        shadow_color: ShaderColor { r: 0, g: 0, b: 0, a: 1024 },
        offset_x: 20,
        offset_y: 20,
        shadow_blur: 8192,
        shadow_opacity: 512,
    };
    let mut ctx = ShaderContext::new(100, 100);
    ctx.frag_x = 50;
    ctx.frag_y = 50;
    let c = sh.fragment(&ctx);
    // Inside the base shape the base color shows, fully covered.
    assert_eq!((c.r, c.g, c.b), (1024, 0, 0));
    assert_eq!(c.a, 1024);
}

#[test]
fn chromatic_aberration_center_is_identity() {
    let sh = ChromaticAberrationShader {
        base_color: ShaderColor { r: 500, g: 600, b: 700, a: 800 },
        offset: 3000,
    };
    let mut ctx = ShaderContext::new(128, 128);
    ctx.frag_x = 64;
    ctx.frag_y = 64;
    // At the exact center the radial direction vanishes.
    assert_eq!(sh.fragment(&ctx), ShaderColor { r: 500, g: 600, b: 700, a: 800 });
    // Away from the center the red and blue fringes brighten.
    ctx.frag_x = 10;
    let c = sh.fragment(&ctx);
    assert!(c.r > 500 && c.b > 700 && c.g == 600);
}

#[test]
fn directional_blur_of_solid_color_is_the_color() {
    let sh = DirectionalBlurShader {
        base_color: ShaderColor { r: 321, g: 654, b: 987, a: 1024 },
        direction_x: 1024,
        direction_y: 0,
        blur_strength: 4096,
        samples: 8,
    };
    let ctx = ShaderContext::new(32, 32);
    assert_eq!(sh.fragment(&ctx), ShaderColor { r: 321, g: 654, b: 987, a: 1024 });
}

#[test]
fn fill_rect_with_effect_contrast_pushes_from_midpoint() {
    let mut c = Canvas::new(vec![0u8; 4 * 4 * 4], 4, 4);
    let e = ShaderEffect::contrast(2048);
    c.fill_rect_with_effect(0, 0, 4, 4, Color::rgb(160, 128, 96), &e);
    // (160 - 128) * 2 + 128 = 192; 128 stays; (128 - 96) * 2 below gives 64.
    assert_eq!(c.get_pixel(0, 0), (64, 128, 192, 255));
}

#[test]
fn fill_rect_with_effect_glow_draws_rings_and_base() {
    let mut c = Canvas::new(vec![0u8; 30 * 30 * 4], 30, 30);
    let e = ShaderEffect::glow(1024);
    c.fill_rect_with_effect(10, 10, 10, 10, Color::rgb(200, 100, 50), &e);
    // The base rectangle shows the plain color on top.
    assert_eq!(c.get_pixel(15, 15), (50, 100, 200, 255));
    // The outermost ring stores the glow color at its ring coverage.
    assert_eq!(c.get_pixel(5, 15), (50, 100, 200, 41));
}

#[test]
fn box_blur_of_solid_color_is_the_color() {
    let sh = BoxBlurShader {
        base_color: ShaderColor { r: 111, g: 222, b: 333, a: 1024 },
        blur_radius: 3,
        samples: 8,
    };
    let mut ctx = ShaderContext::new(64, 64);
    ctx.frag_x = 30;
    ctx.frag_y = 30;
    assert_eq!(sh.fragment(&ctx), ShaderColor { r: 111, g: 222, b: 333, a: 1024 });
}

#[test]
fn gaussian_blur_of_solid_color_is_the_color() {
    let sh = GaussianBlurShader {
        base_color: ShaderColor { r: 400, g: 500, b: 600, a: 1024 },
        blur_radius: 4,
        sigma: 2,
    };
    let mut ctx = ShaderContext::new(32, 32);
    ctx.frag_x = 16;
    ctx.frag_y = 16;
    assert_eq!(sh.fragment(&ctx), ShaderColor { r: 400, g: 500, b: 600, a: 1024 });
}

#[test]
fn dialog_centered_on_a_smaller_canvas_truncates_toward_zero() {
    // A 380-wide dialog on a 375-wide canvas: the slack is -5, and machine
    // division halves it toward zero, to -2.
    let d = dialog(String::from("T"), String::from("M")).centered(375, 305);
    assert_eq!(d.rect.x, -2);
    assert_eq!(d.rect.y, -2);
}

#[test]
fn rect_positioning_capabilities() {
    let r = Rect::new(1, 2, 3, 4);
    assert_eq!(r.at(9, 8), Rect::new(9, 8, 3, 4));
    assert_eq!(r.size(30, 40), Rect::new(1, 2, 30, 40));
    assert_eq!(r.frame(5, 6, 7, 8), Rect::new(5, 6, 7, 8));
}
