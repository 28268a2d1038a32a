//! Tests of the effect-stack compiler, the graph encoding and the direct
//! execution path.

use mochi_render::canvas::Canvas;
use mochi_render::color::Color;
use mochi_render::effects::{BlendMode, Effect, EffectStack, EffectType, RenderGraph, RenderNode};

#[test]
fn shadow_then_blur_compiles_in_order() {
    // A stack of [Shadow, Blur] compiled for the rectangle (0, 0, 10, 10)
    // and a white base produces [ShadowPass, BlurPass, DrawRect] exactly.
    let mut stack = EffectStack::new();
    let white = Color::rgb(255, 255, 255);
    stack.push(Effect::shadow(0, 4, Color::rgba(0, 0, 0, 128), 8));
    stack.push(Effect::blur(5));
    let g = RenderGraph::from_effect_stack(&stack, 0, 0, 10, 10, white);
    let nodes = g.nodes();
    assert_eq!(nodes.len(), 3);
    assert_eq!(
        nodes[0],
        RenderNode::ShadowPass {
            offset_x: 0,
            offset_y: 4,
            color: Color::rgba(0, 0, 0, 128),
            blur: 8,
            opacity: 128,
        }
    );
    assert_eq!(nodes[1], RenderNode::BlurPass { radius: 5, samples: 8 });
    assert_eq!(
        nodes[2],
        RenderNode::DrawRect { x: 0, y: 0, width: 10, height: 10, color: white }
    );
}

#[test]
fn compiled_graph_always_ends_with_the_base_fill() {
    let color = Color::rgb(1, 2, 3);
    let mut stack = EffectStack::new();
    stack.push(Effect::glow(2048));
    stack.push(Effect::brightness(512));
    stack.push(Effect::gradient(Color::rgb(0, 0, 0), Color::rgb(9, 9, 9), 45));
    stack.push(Effect::shadow(1, 1, Color::rgb(0, 0, 0), 2));
    let g = RenderGraph::from_effect_stack(&stack, 3, 4, 5, 6, color);
    let nodes = g.nodes();
    assert_eq!(
        nodes[nodes.len() - 1],
        RenderNode::DrawRect { x: 3, y: 4, width: 5, height: 6, color }
    );
}

#[test]
fn glow_expands_to_blur_then_screen_composite() {
    let mut stack = EffectStack::new();
    stack.push(Effect::glow(1536));
    let g = RenderGraph::from_effect_stack(&stack, 0, 0, 4, 4, Color::rgb(8, 8, 8));
    let nodes = g.nodes();
    assert_eq!(nodes.len(), 3);
    assert_eq!(nodes[0], RenderNode::BlurPass { radius: 8, samples: 8 });
    assert_eq!(nodes[1], RenderNode::CompositePass { blend_mode: BlendMode::Screen });
    // Two glows give exactly two blur-then-composite pairs.
    let mut two = EffectStack::new();
    two.push(Effect::glow(1024));
    two.push(Effect::glow(1024));
    let g2 = RenderGraph::from_effect_stack(&two, 0, 0, 4, 4, Color::rgb(8, 8, 8));
    let screens = g2
        .nodes()
        .iter()
        .filter(|n| matches!(n, RenderNode::CompositePass { blend_mode: BlendMode::Screen }))
        .count();
    assert_eq!(screens, 2);
}

#[test]
fn gradient_effect_expands_to_no_pass() {
    let mut stack = EffectStack::new();
    stack.push(Effect::gradient(Color::rgb(0, 0, 0), Color::rgb(255, 255, 255), 0));
    let g = RenderGraph::from_effect_stack(&stack, 0, 0, 2, 2, Color::rgb(5, 5, 5));
    assert_eq!(g.nodes().len(), 1);
}

#[test]
fn color_adjust_carries_neutral_defaults() {
    let mut stack = EffectStack::new();
    stack.push(Effect::contrast(700));
    let g = RenderGraph::from_effect_stack(&stack, 0, 0, 2, 2, Color::rgb(5, 5, 5));
    assert_eq!(
        g.nodes()[0],
        RenderNode::ColorAdjust { brightness: 256, contrast: 700, saturation: 256 }
    );
}

#[test]
fn effect_type_reports_the_tag() {
    assert_eq!(Effect::blur(3).effect_type(), EffectType::Blur);
    assert_eq!(Effect::saturation(100).effect_type(), EffectType::Saturation);
    assert_eq!(
        Effect::gradient(Color::rgb(0, 0, 0), Color::rgb(1, 1, 1), 10).effect_type(),
        EffectType::Gradient
    );
}

#[test]
fn stack_len_and_is_empty() {
    let mut stack = EffectStack::new();
    assert!(stack.is_empty());
    assert_eq!(stack.len(), 0);
    stack.push(Effect::blur(1));
    stack.push(Effect::glow(1024));
    assert!(!stack.is_empty());
    assert_eq!(stack.len(), 2);
    assert_eq!(stack.effects().len(), 2);
}

#[test]
fn encode_flattens_tags_and_params() {
    let mut g = RenderGraph::new();
    g.add_node(RenderNode::Clear { color: Color::rgba(1, 2, 3, 4) });
    g.add_node(RenderNode::DrawRect { x: 5, y: 6, width: 7, height: 8, color: Color::rgb(9, 10, 11) });
    g.add_node(RenderNode::CompositePass { blend_mode: BlendMode::Screen });
    g.add_node(RenderNode::ColorAdjust { brightness: 256, contrast: 300, saturation: 256 });
    let (tags, params) = g.encode();
    assert_eq!(tags, vec![0, 1, 4, 5]);
    assert_eq!(
        params,
        vec![1, 2, 3, 4, 5, 6, 7, 8, 9, 10, 11, 255, 2, 256, 300, 256]
    );
}

#[test]
fn encode_blur_and_shadow_params() {
    let mut g = RenderGraph::new();
    g.add_node(RenderNode::BlurPass { radius: 12, samples: 4 });
    g.add_node(RenderNode::ShadowPass {
        offset_x: -1,
        offset_y: 2,
        color: Color::rgba(20, 30, 40, 50),
        blur: 6,
        opacity: 128,
    });
    let (tags, params) = g.encode();
    assert_eq!(tags, vec![2, 3]);
    assert_eq!(params, vec![12, 4, -1, 2, 20, 30, 40, 50, 6, 128]);
}

#[test]
fn execute_clear_and_draw_rect_on_canvas() {
    let mut g = RenderGraph::new();
    g.add_node(RenderNode::Clear { color: Color::rgb(0, 0, 0) });
    g.add_node(RenderNode::DrawRect { x: 1, y: 1, width: 2, height: 2, color: Color::rgb(255, 0, 0) });
    let mut c = Canvas::new(vec![9u8; 5 * 5 * 4], 5, 5);
    g.execute(&mut c, 0, 0, 5, 5);
    assert_eq!(c.get_pixel(0, 0), (0, 0, 0, 255));
    assert_eq!(c.get_pixel(1, 1), (0, 0, 255, 255));
    assert_eq!(c.get_pixel(2, 2), (0, 0, 255, 255));
    assert_eq!(c.get_pixel(3, 3), (0, 0, 0, 255));
}

#[test]
fn execute_skips_layer_passes_on_the_direct_path() {
    let mut g = RenderGraph::new();
    g.add_node(RenderNode::BlurPass { radius: 4, samples: 8 });
    g.add_node(RenderNode::CompositePass { blend_mode: BlendMode::Multiply });
    g.add_node(RenderNode::ColorAdjust { brightness: 512, contrast: 256, saturation: 256 });
    let mut c = Canvas::new(vec![7u8; 3 * 3 * 4], 3, 3);
    g.execute(&mut c, 0, 0, 3, 3);
    assert_eq!(c.get_pixel(1, 1), (7, 7, 7, 7));
}

#[test]
fn compiled_stack_executes_against_canvas() {
    let mut stack = EffectStack::new();
    stack.push(Effect::shadow(0, 0, Color::rgba(0, 0, 0, 255), 0));
    let g = RenderGraph::from_effect_stack(&stack, 2, 2, 4, 4, Color::rgb(0, 255, 0));
    let mut c = Canvas::new(vec![255u8; 12 * 12 * 4], 12, 12);
    g.execute(&mut c, 2, 2, 4, 4);
    // The base fill landed last and is visible.
    assert_eq!(c.get_pixel(3, 3), (0, 255, 0, 255));
}
