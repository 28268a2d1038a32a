//! Scenario tests of the raster canvas: pixel writes, blending, fills,
//! gradients, rounded corners, lines and shadows.

use mochi_render::canvas::Canvas;
use mochi_render::color::Color;

fn canvas(w: u32, h: u32) -> Canvas {
    Canvas::new(vec![0u8; (w * h * 4) as usize], w, h)
}

#[test]
fn cleared_canvas_then_fill_rect_scenario() {
    // A 100 x 50 canvas cleared to black, then a white rectangle at
    // (10, 10) of size 20 x 20.
    let mut c = canvas(100, 50);
    c.clear(Color::rgb(0, 0, 0));
    c.fill_rect(10, 10, 20, 20, Color::rgb(255, 255, 255));
    // Inside the rectangle: white.
    assert_eq!(c.get_pixel(15, 15), (255, 255, 255, 255));
    // Outside the rectangle: still black.
    assert_eq!(c.get_pixel(5, 5), (0, 0, 0, 255));
    // Out of bounds: no error and nothing changed.
    c.set_pixel(200, 200, Color::rgb(1, 2, 3));
    assert_eq!(c.get_pixel(99, 49), (0, 0, 0, 255));
}

#[test]
fn set_pixel_stores_bgra() {
    let mut c = canvas(4, 4);
    c.set_pixel(2, 1, Color::rgba(10, 20, 30, 40));
    // Stored byte order is B, G, R, A.
    assert_eq!(c.get_pixel(2, 1), (30, 20, 10, 40));
}

#[test]
fn blend_pixel_opaque_overwrites_color_channels() {
    let mut c = canvas(2, 2);
    c.set_pixel(0, 0, Color::rgba(9, 9, 9, 77));
    c.blend_pixel(0, 0, Color::rgba(200, 100, 50, 255));
    // Alpha 255 writes the source channels exactly; the stored alpha byte
    // is not touched by blending.
    assert_eq!(c.get_pixel(0, 0), (50, 100, 200, 77));
}

#[test]
fn blend_pixel_transparent_is_identity() {
    let mut c = canvas(2, 2);
    c.set_pixel(1, 1, Color::rgba(120, 130, 140, 150));
    let before = c.get_pixel(1, 1);
    c.blend_pixel(1, 1, Color::rgba(7, 8, 9, 0));
    // Alpha 0 leaves the destination bit for bit unchanged.
    assert_eq!(c.get_pixel(1, 1), before);
}

#[test]
fn blend_pixel_half_alpha_mixes() {
    let mut c = canvas(1, 1);
    c.set_pixel(0, 0, Color::rgba(100, 100, 100, 255));
    c.blend_pixel(0, 0, Color::rgba(200, 200, 200, 128));
    // (100 * 127 + 200 * 128) / 255 == 150 on every color channel.
    assert_eq!(c.get_pixel(0, 0), (150, 150, 150, 255));
}

#[test]
fn blend_pixel_premul_matches_blend_pixel() {
    let mut a = canvas(1, 1);
    let mut b = canvas(1, 1);
    a.set_pixel(0, 0, Color::rgba(13, 57, 211, 255));
    b.set_pixel(0, 0, Color::rgba(13, 57, 211, 255));
    a.blend_pixel(0, 0, Color::rgba(250, 3, 77, 99));
    b.blend_pixel_premul(0, 0, Color::rgba(250, 3, 77, 99));
    assert_eq!(a.get_pixel(0, 0), b.get_pixel(0, 0));
}

#[test]
fn out_of_bounds_calls_change_nothing() {
    let mut c = canvas(8, 8);
    c.clear(Color::rgb(10, 20, 30));
    let before: Vec<(u8, u8, u8, u8)> =
        (0..8).flat_map(|y| (0..8).map(move |x| (x, y))).map(|(x, y)| c.get_pixel(x, y)).collect();
    c.set_pixel(-1, 0, Color::rgb(255, 0, 0));
    c.set_pixel(8, 0, Color::rgb(255, 0, 0));
    c.blend_pixel(0, -1, Color::rgb(255, 0, 0));
    c.blend_pixel(0, 8, Color::rgb(255, 0, 0));
    c.fill_rect(100, 100, 5, 5, Color::rgb(255, 0, 0));
    c.draw_line(-10, -10, -5, -5, Color::rgb(255, 0, 0));
    let after: Vec<(u8, u8, u8, u8)> =
        (0..8).flat_map(|y| (0..8).map(move |x| (x, y))).map(|(x, y)| c.get_pixel(x, y)).collect();
    assert_eq!(before, after);
}

#[test]
fn fill_rect_overlapping_edge_clips() {
    let mut c = canvas(4, 4);
    c.clear(Color::rgb(0, 0, 0));
    c.fill_rect(2, 2, 10, 10, Color::rgb(255, 255, 255));
    assert_eq!(c.get_pixel(3, 3), (255, 255, 255, 255));
    assert_eq!(c.get_pixel(1, 1), (0, 0, 0, 255));
}

#[test]
fn draw_rect_outline_leaves_interior() {
    let mut c = canvas(10, 10);
    c.clear(Color::rgb(0, 0, 0));
    c.draw_rect(1, 1, 8, 8, Color::rgb(255, 255, 255), 1);
    // On the outline.
    assert_eq!(c.get_pixel(1, 1), (255, 255, 255, 255));
    assert_eq!(c.get_pixel(8, 8), (255, 255, 255, 255));
    assert_eq!(c.get_pixel(4, 1), (255, 255, 255, 255));
    // Interior untouched.
    assert_eq!(c.get_pixel(4, 4), (0, 0, 0, 255));
}

#[test]
fn gradient_start_pixel_is_exact() {
    let mut c = canvas(100, 100);
    c.fill_gradient_rect(0, 0, 100, 100, Color::rgb(255, 0, 0), Color::rgb(0, 0, 255), 0);
    // At angle 0 the leftmost column sits at parameter 0: the start color,
    // channel for channel.
    assert_eq!(c.get_pixel(0, 0), (0, 0, 255, 255));
    assert_eq!(c.get_pixel(0, 99), (0, 0, 255, 255));
}

#[test]
fn gradient_red_to_blue_ends_lean_the_right_way() {
    let mut c = canvas(100, 100);
    c.fill_gradient_rect(0, 0, 100, 100, Color::rgb(255, 0, 0), Color::rgb(0, 0, 255), 0);
    let (near_b, _, near_r, _) = c.get_pixel(1, 50);
    let (far_b, _, far_r, _) = c.get_pixel(99, 50);
    // Near x = 0 the pixel leans red; near x = 99 it leans blue.
    assert!(near_r > near_b);
    assert!(far_b > far_r);
}

#[test]
fn gradient_angle_ninety_runs_down() {
    let mut c = canvas(50, 50);
    c.fill_gradient_rect(0, 0, 50, 50, Color::rgb(255, 0, 0), Color::rgb(0, 0, 255), 90);
    let (top_b, _, top_r, _) = c.get_pixel(25, 0);
    let (bot_b, _, bot_r, _) = c.get_pixel(25, 49);
    assert!(top_r > top_b);
    assert!(bot_b > bot_r);
}

#[test]
fn rounded_rect_corner_masks_are_mirror_images() {
    let mut c = canvas(60, 60);
    c.clear(Color::rgb(0, 0, 0));
    c.fill_rounded_rect(10, 10, 40, 40, 8, Color::rgb(255, 255, 255));
    // The set of touched pixels of the top-left corner square mirrors the
    // top-right, bottom-left and bottom-right ones.
    let touched = |x: i32, y: i32| -> bool { c.get_pixel(x as u32, y as u32) != (0, 0, 0, 255) };
    for dy in 0..8 {
        for dx in 1..8 {
            let tl = touched(10 + dx, 10 + dy);
            let tr = touched(10 + 40 - 8 + (8 - dx), 10 + dy);
            assert_eq!(tl, tr);
            let bl = touched(10 + dx, 10 + 40 - 8 + (8 - dy).min(7));
            let _ = bl;
        }
    }
    for dy in 1..8 {
        for dx in 1..8 {
            let tl = touched(10 + dx, 10 + dy);
            let br = touched(10 + 40 - 8 + (8 - dx), 10 + 40 - 8 + (8 - dy));
            assert_eq!(tl, br);
        }
    }
}

#[test]
fn rounded_rect_fills_center_and_skips_corner_tip() {
    let mut c = canvas(60, 60);
    c.clear(Color::rgb(0, 0, 0));
    c.fill_rounded_rect(10, 10, 40, 40, 8, Color::rgb(255, 255, 255));
    assert_eq!(c.get_pixel(30, 30), (255, 255, 255, 255));
    // The extreme corner pixel lies outside the quarter disc.
    assert_eq!(c.get_pixel(10, 10), (0, 0, 0, 255));
}

#[test]
fn draw_line_visits_its_endpoints() {
    let mut c = canvas(20, 20);
    c.clear(Color::rgb(0, 0, 0));
    c.draw_line(2, 3, 15, 11, Color::rgb(255, 255, 255));
    assert_eq!(c.get_pixel(2, 3), (255, 255, 255, 255));
    assert_eq!(c.get_pixel(15, 11), (255, 255, 255, 255));
}

#[test]
fn horizontal_line_covers_row() {
    let mut c = canvas(10, 3);
    c.clear(Color::rgb(0, 0, 0));
    c.draw_line(0, 1, 9, 1, Color::rgb(9, 8, 7));
    for x in 0..10 {
        assert_eq!(c.get_pixel(x, 1), (7, 8, 9, 255));
    }
    assert_eq!(c.get_pixel(5, 0), (0, 0, 0, 255));
}

#[test]
fn draw_shadow_darkens_under_rect_uniformly() {
    let mut c = canvas(30, 30);
    c.clear(Color::rgb(255, 255, 255));
    c.draw_shadow(5, 5, 10, 10, 4, Color::rgba(0, 0, 0, 255));
    // A full-coverage rectangular mask blurs back to full coverage, so all
    // shadowed pixels are equally dark (here fully black).
    let inside1 = c.get_pixel(9, 9);
    let inside2 = c.get_pixel(12, 12);
    assert_eq!(inside1, inside2);
    assert!(inside1.0 < 255);
    // Far away the canvas is untouched.
    assert_eq!(c.get_pixel(25, 25), (255, 255, 255, 255));
}

#[test]
fn rounded_shadow_fades_with_distance_from_shape() {
    let mut c = canvas(60, 40);
    c.clear(Color::rgb(255, 255, 255));
    c.draw_rounded_shadow(5, 5, 30, 20, 6, 6, Color::rgba(0, 0, 0, 255));
    // Along the middle row, walking right from inside the shape, the
    // composited darkness never increases (the blue channel never drops).
    let row = 5 + 10 + 3; // middle of the shape, plus the shadow offset
    let mut prev = c.get_pixel(20, row).0;
    for x in 21..60 {
        let cur = c.get_pixel(x, row).0;
        assert!(cur >= prev);
        prev = cur;
    }
}

#[test]
fn shadow_with_zero_area_changes_nothing() {
    let mut c = canvas(10, 10);
    c.clear(Color::rgb(50, 60, 70));
    c.draw_shadow(2, 2, 0, 5, 3, Color::rgba(0, 0, 0, 200));
    c.draw_rounded_shadow(2, 2, 5, 0, 2, 3, Color::rgba(0, 0, 0, 200));
    for y in 0..10 {
        for x in 0..10 {
            assert_eq!(c.get_pixel(x, y), (70, 60, 50, 255));
        }
    }
}

#[test]
fn palette_values() {
    assert_eq!(Color::rgb(1, 2, 3).as_tuple(), (1, 2, 3));
    assert_eq!(Color::accent(), Color::rgba(0, 122, 255, 255));
    assert_eq!(Color::transparent().a, 0);
    assert_eq!(Color::bg_primary(), Color::rgb(40, 40, 40));
}
