//! Declarative visual effects and the compiler that lowers an ordered
//! effect stack attached to a rectangle into an ordered render graph of
//! primitive passes. The expansion rule lives in one place
//! (`nodes_of_effect`); the base fill is always appended last, so no effect
//! pass can occlude its own shape.
//!
//! Fractional parameters are fixed point: color-adjust scalars and opacities
//! carry 1/256 and 1/255 units, radii and offsets are whole pixels.

use crate::canvas::{in_rect, same_shape, stored_pixel, Canvas};
use crate::color::Color;
use crate::fixed::clamp_int;
use crate::shadow::{blurred_mask, rect_mask_seq, shadow_pixel};
use vstd::prelude::*;

verus! {

/// The tag of an effect kind.
#[derive(Debug, Clone, Copy, PartialEq, Eq, Structural)]
pub enum EffectType {
    Blur,
    Shadow,
    Glow,
    Gradient,
    Brightness,
    Contrast,
    Saturation,
}

/// One declarative effect, carrying exactly the fields its kind reads.
/// Color-adjust values are in 1/256 units (256 is neutral), opacity in
/// 1/255 units (255 is opaque).
#[derive(Debug, Clone, Copy, PartialEq, Eq, Structural)]
pub enum Effect {
    Blur { radius: i32, samples: i32 },
    Shadow { offset_x: i32, offset_y: i32, color: Color, blur: i32, opacity: u8 },
    Glow { intensity: u32 },
    Gradient { start: Color, end: Color, angle_deg: i32 },
    Brightness { value: u32 },
    Contrast { value: u32 },
    Saturation { value: u32 },
}

/// The tag of an effect.
pub open spec fn effect_tag(e: Effect) -> EffectType {
    match e {
        Effect::Blur { .. } => EffectType::Blur,
        Effect::Shadow { .. } => EffectType::Shadow,
        Effect::Glow { .. } => EffectType::Glow,
        Effect::Gradient { .. } => EffectType::Gradient,
        Effect::Brightness { .. } => EffectType::Brightness,
        Effect::Contrast { .. } => EffectType::Contrast,
        Effect::Saturation { .. } => EffectType::Saturation,
    }
}

impl Effect {
    /// A blur effect with the default sample count.
    pub fn blur(radius: i32) -> (e: Effect)
        ensures
            e == (Effect::Blur { radius, samples: 8 }),
    {
        Effect::Blur { radius, samples: 8 }
    }

    /// A drop shadow with the default half opacity.
    pub fn shadow(offset_x: i32, offset_y: i32, color: Color, blur: i32) -> (e: Effect)
        ensures
            e == (Effect::Shadow { offset_x, offset_y, color, blur, opacity: 128 }),
    {
        Effect::Shadow { offset_x, offset_y, color, blur, opacity: 128 }
    }

    /// A glow of the given intensity in 1/256 units.
    pub fn glow(intensity: u32) -> (e: Effect)
        ensures
            e == (Effect::Glow { intensity }),
    {
        Effect::Glow { intensity }
    }

    /// A linear gradient between two colors at an angle in whole degrees.
    pub fn gradient(start: Color, end: Color, angle_deg: i32) -> (e: Effect)
        ensures
            e == (Effect::Gradient { start, end, angle_deg }),
    {
        Effect::Gradient { start, end, angle_deg }
    }

    /// A brightness adjustment in 1/256 units (256 is neutral).
    pub fn brightness(value: u32) -> (e: Effect)
        ensures
            e == (Effect::Brightness { value }),
    {
        Effect::Brightness { value }
    }

    /// A contrast adjustment in 1/256 units (256 is neutral).
    pub fn contrast(value: u32) -> (e: Effect)
        ensures
            e == (Effect::Contrast { value }),
    {
        Effect::Contrast { value }
    }

    /// A saturation adjustment in 1/256 units (256 is neutral).
    pub fn saturation(value: u32) -> (e: Effect)
        ensures
            e == (Effect::Saturation { value }),
    {
        Effect::Saturation { value }
    }

    /// The tag selecting this effect's kind.
    pub fn effect_type(&self) -> (t: EffectType)
        ensures
            t == effect_tag(*self),
    {
        match self {
            Effect::Blur { .. } => EffectType::Blur,
            Effect::Shadow { .. } => EffectType::Shadow,
            Effect::Glow { .. } => EffectType::Glow,
            Effect::Gradient { .. } => EffectType::Gradient,
            Effect::Brightness { .. } => EffectType::Brightness,
            Effect::Contrast { .. } => EffectType::Contrast,
            Effect::Saturation { .. } => EffectType::Saturation,
        }
    }
}

/// An ordered stack of effects; the order is caller-significant, passes are
/// emitted in stack order and the base shape is always drawn last.
pub struct EffectStack {
    pub effects: Vec<Effect>,
}

impl EffectStack {
    /// An empty stack.
    pub fn new() -> (s: EffectStack)
        ensures
            s.effects@ == Seq::<Effect>::empty(),
    {
        EffectStack { effects: Vec::new() }
    }

    /// Appends one effect at the end of the stack.
    pub fn push(&mut self, effect: Effect)
        ensures
            final(self).effects@ == old(self).effects@.push(effect),
    {
        self.effects.push(effect);
    }

    /// The effects in stack order.
    pub fn effects(&self) -> (v: &Vec<Effect>)
        ensures
            v@ == self.effects@,
    {
        &self.effects
    }

    /// Whether the stack holds no effect.
    pub fn is_empty(&self) -> (b: bool)
        ensures
            b == (self.effects@.len() == 0),
    {
        self.effects.len() == 0
    }

    /// The number of effects on the stack.
    pub fn len(&self) -> (n: usize)
        ensures
            n == self.effects@.len(),
    {
        self.effects.len()
    }
}

/// How a composite pass combines its layer with the layers below.
#[derive(Debug, Clone, Copy, PartialEq, Eq, Structural)]
pub enum BlendMode {
    Normal,
    Multiply,
    Screen,
    Overlay,
}

/// One primitive render pass of the lowered graph.
#[derive(Debug, Clone, Copy, PartialEq, Eq, Structural)]
pub enum RenderNode {
    Clear { color: Color },
    DrawRect { x: i32, y: i32, width: i32, height: i32, color: Color },
    BlurPass { radius: i32, samples: i32 },
    ShadowPass { offset_x: i32, offset_y: i32, color: Color, blur: i32, opacity: u8 },
    CompositePass { blend_mode: BlendMode },
    ColorAdjust { brightness: u32, contrast: u32, saturation: u32 },
}

/// The render passes one effect expands to, in order. A glow is defined as a
/// blur followed by a Screen composite, not a primitive of its own; a
/// gradient is drawn by the base fill and expands to no pass; a color
/// adjustment carries its own scalar and the neutral value for the other two.
pub open spec fn nodes_of_effect(e: Effect) -> Seq<RenderNode> {
    match e {
        Effect::Blur { radius, samples } => seq![RenderNode::BlurPass { radius, samples }],
        Effect::Shadow { offset_x, offset_y, color, blur, opacity } => seq![
            RenderNode::ShadowPass { offset_x, offset_y, color, blur, opacity },
        ],
        Effect::Glow { intensity } => seq![
            RenderNode::BlurPass { radius: 8, samples: 8 },
            RenderNode::CompositePass { blend_mode: BlendMode::Screen },
        ],
        Effect::Gradient { .. } => Seq::empty(),
        Effect::Brightness { value } => seq![
            RenderNode::ColorAdjust { brightness: value, contrast: 256, saturation: 256 },
        ],
        Effect::Contrast { value } => seq![
            RenderNode::ColorAdjust { brightness: 256, contrast: value, saturation: 256 },
        ],
        Effect::Saturation { value } => seq![
            RenderNode::ColorAdjust { brightness: 256, contrast: 256, saturation: value },
        ],
    }
}

/// The passes of a whole stack, in stack order.
pub open spec fn effects_nodes(stack: Seq<Effect>) -> Seq<RenderNode>
    decreases stack.len(),
{
    if stack.len() == 0 {
        Seq::empty()
    } else {
        nodes_of_effect(stack[0]) + effects_nodes(stack.skip(1))
    }
}

/// What the compiler produces: the passes of the stack in order, then
/// exactly one DrawRect carrying the target rectangle and base color.
pub open spec fn compile_spec(
    stack: Seq<Effect>,
    x: i32,
    y: i32,
    width: i32,
    height: i32,
    color: Color,
) -> Seq<RenderNode> {
    effects_nodes(stack) + seq![RenderNode::DrawRect { x, y, width, height, color }]
}

/// The Screen-composite count of a one-pass graph.
proof fn lemma_count_screen_single(n: RenderNode)
    ensures
        count_screen(seq![n]) == if is_screen_composite(n) {
            1int
        } else {
            0int
        },
{
    assert(count_screen(Seq::<RenderNode>::empty()) == 0);
    assert(seq![n].skip(1) =~= Seq::<RenderNode>::empty());
    assert(seq![n][0] == n);
    assert(count_screen(seq![n]) == (if is_screen_composite(n) {
        1int
    } else {
        0int
    }) + count_screen(Seq::<RenderNode>::empty()));
}

/// Appending one effect to a stack appends that effect's passes.
proof fn lemma_effects_nodes_push(stack: Seq<Effect>, e: Effect)
    ensures
        effects_nodes(stack.push(e)) == effects_nodes(stack) + nodes_of_effect(e),
    decreases stack.len(),
{
    if stack.len() == 0 {
        assert(stack.push(e)[0] == e);
        assert(stack.push(e).skip(1) =~= Seq::<Effect>::empty());
        assert(effects_nodes(stack.push(e).skip(1)) =~= Seq::<RenderNode>::empty());
        assert(effects_nodes(stack.push(e)) =~= nodes_of_effect(e) + Seq::<RenderNode>::empty());
        assert(nodes_of_effect(e) + Seq::<RenderNode>::empty() =~= nodes_of_effect(e));
        assert(effects_nodes(stack) =~= Seq::<RenderNode>::empty());
        assert(effects_nodes(stack) + nodes_of_effect(e) =~= nodes_of_effect(e));
    } else {
        assert(stack.push(e).skip(1) =~= stack.skip(1).push(e));
        lemma_effects_nodes_push(stack.skip(1), e);
        assert(effects_nodes(stack.push(e)) =~= effects_nodes(stack) + nodes_of_effect(e));
    }
}

/// An ordered list of primitive render passes, consumed once per frame.
pub struct RenderGraph {
    pub nodes: Vec<RenderNode>,
}

impl RenderGraph {
    /// An empty graph.
    pub fn new() -> (g: RenderGraph)
        ensures
            g.nodes@ == Seq::<RenderNode>::empty(),
    {
        RenderGraph { nodes: Vec::new() }
    }

    /// Appends one pass at the end of the graph.
    pub fn add_node(&mut self, node: RenderNode)
        ensures
            final(self).nodes@ == old(self).nodes@.push(node),
    {
        self.nodes.push(node);
    }

    /// The passes in execution order.
    pub fn nodes(&self) -> (v: &Vec<RenderNode>)
        ensures
            v@ == self.nodes@,
    {
        &self.nodes
    }

    /// Lowers an effect stack attached to a rectangle into a render graph:
    /// each effect expands to its passes in stack order, and exactly one
    /// DrawRect with the rectangle and base color is appended last.
    pub fn from_effect_stack(
        stack: &EffectStack,
        x: i32,
        y: i32,
        width: i32,
        height: i32,
        base_color: Color,
    ) -> (g: RenderGraph)
        ensures
            g.nodes@ == compile_spec(stack.effects@, x, y, width, height, base_color),
    {
        let mut graph = RenderGraph::new();
        let n: usize = stack.effects.len();
        let mut i: usize = 0;
        while i < n
            invariant
                i <= n,
                n == stack.effects@.len(),
                graph.nodes@ == effects_nodes(stack.effects@.take(i as int)),
            decreases n - i,
        {
            let e: Effect = stack.effects[i];
            match e {
                Effect::Shadow { offset_x, offset_y, color, blur, opacity } => {
                    graph.add_node(
                        RenderNode::ShadowPass { offset_x, offset_y, color, blur, opacity },
                    );
                },
                Effect::Blur { radius, samples } => {
                    graph.add_node(RenderNode::BlurPass { radius, samples });
                },
                Effect::Glow { intensity } => {
                    // A glow is a blurred copy screen-composited over the base.
                    graph.add_node(RenderNode::BlurPass { radius: 8, samples: 8 });
                    graph.add_node(RenderNode::CompositePass { blend_mode: BlendMode::Screen });
                },
                Effect::Brightness { value } => {
                    graph.add_node(
                        RenderNode::ColorAdjust { brightness: value, contrast: 256, saturation: 256 },
                    );
                },
                Effect::Contrast { value } => {
                    graph.add_node(
                        RenderNode::ColorAdjust { brightness: 256, contrast: value, saturation: 256 },
                    );
                },
                Effect::Saturation { value } => {
                    graph.add_node(
                        RenderNode::ColorAdjust { brightness: 256, contrast: 256, saturation: value },
                    );
                },
                Effect::Gradient { .. } => {},
            }
            proof {
                assert(stack.effects@.take(i as int + 1) =~= stack.effects@.take(i as int).push(
                    stack.effects@[i as int],
                ));
                lemma_effects_nodes_push(stack.effects@.take(i as int), stack.effects@[i as int]);
                assert(graph.nodes@ =~= effects_nodes(stack.effects@.take(i as int + 1)));
            }
            i = i + 1;
        }
        proof {
            assert(stack.effects@.take(n as int) =~= stack.effects@);
        }
        // The base shape is always drawn last, whatever the stack held.
        graph.add_node(RenderNode::DrawRect { x, y, width, height, color: base_color });
        graph
    }
}

/// Whether a node is a Screen-mode composite pass.
pub open spec fn is_screen_composite(n: RenderNode) -> bool {
    match n {
        RenderNode::CompositePass { blend_mode } => blend_mode == BlendMode::Screen,
        _ => false,
    }
}

/// Whether a node is a blur pass.
pub open spec fn is_blur_pass(n: RenderNode) -> bool {
    match n {
        RenderNode::BlurPass { .. } => true,
        _ => false,
    }
}

/// Whether an effect is a glow.
pub open spec fn is_glow(e: Effect) -> bool {
    match e {
        Effect::Glow { .. } => true,
        _ => false,
    }
}

/// The number of glow effects on a stack.
pub open spec fn count_glow(stack: Seq<Effect>) -> int
    decreases stack.len(),
{
    if stack.len() == 0 {
        0
    } else {
        (if is_glow(stack[0]) {
            1int
        } else {
            0int
        }) + count_glow(stack.skip(1))
    }
}

/// The number of Screen composite passes in a graph.
pub open spec fn count_screen(g: Seq<RenderNode>) -> int
    decreases g.len(),
{
    if g.len() == 0 {
        0
    } else {
        (if is_screen_composite(g[0]) {
            1int
        } else {
            0int
        }) + count_screen(g.skip(1))
    }
}

/// Screen-composite counting distributes over concatenation.
proof fn lemma_count_screen_add(a: Seq<RenderNode>, b: Seq<RenderNode>)
    ensures
        count_screen(a + b) == count_screen(a) + count_screen(b),
    decreases a.len(),
{
    if a.len() == 0 {
        assert(a + b =~= b);
    } else {
        assert((a + b).skip(1) =~= a.skip(1) + b);
        lemma_count_screen_add(a.skip(1), b);
    }
}

/// Within the passes of a stack, every Screen composite sits directly after
/// a blur pass, and there are exactly as many Screen composites as glows.
proof fn lemma_effects_nodes_glow(stack: Seq<Effect>)
    ensures
        count_screen(effects_nodes(stack)) == count_glow(stack),
        forall|i: int|
            0 <= i < effects_nodes(stack).len() && is_screen_composite(
                #[trigger] effects_nodes(stack)[i],
            ) ==> i >= 1 && is_blur_pass(effects_nodes(stack)[i - 1]),
    decreases stack.len(),
{
    if stack.len() == 0 {
    } else {
        let block = nodes_of_effect(stack[0]);
        let rest = effects_nodes(stack.skip(1));
        lemma_effects_nodes_glow(stack.skip(1));
        lemma_count_screen_add(block, rest);
        assert(count_screen(block) == if is_glow(stack[0]) {
            1int
        } else {
            0int
        }) by {
            match stack[0] {
                Effect::Glow { intensity } => {
                    let b1 = RenderNode::BlurPass { radius: 8, samples: 8 };
                    let c1 = RenderNode::CompositePass { blend_mode: BlendMode::Screen };
                    assert(block =~= seq![b1] + seq![c1]);
                    lemma_count_screen_add(seq![b1], seq![c1]);
                    lemma_count_screen_single(b1);
                    lemma_count_screen_single(c1);
                },
                Effect::Gradient { .. } => {
                    assert(block =~= Seq::<RenderNode>::empty());
                },
                _ => {
                    assert(block.len() == 1);
                    assert(block =~= seq![block[0]]);
                    lemma_count_screen_single(block[0]);
                },
            }
        }
        assert forall|i: int|
            0 <= i < effects_nodes(stack).len() && is_screen_composite(
                #[trigger] effects_nodes(stack)[i],
            ) implies i >= 1 && is_blur_pass(effects_nodes(stack)[i - 1]) by {
            if i < block.len() {
                assert(effects_nodes(stack)[i] == block[i]);
                if is_glow(stack[0]) {
                    assert(i == 1);
                    assert(effects_nodes(stack)[0] == block[0]);
                }
            } else {
                assert(effects_nodes(stack)[i] == rest[i - block.len()]);
                assert(i - block.len() >= 1);
                assert(effects_nodes(stack)[i - 1] == rest[i - block.len() - 1]);
            }
        }
    }
}

/// The compiled graph always ends with the base fill: its final node is
/// `DrawRect` carrying the target rectangle and base color, whatever the
/// stack holds and in whatever order.
pub proof fn lemma_compile_last_is_draw_rect(
    stack: Seq<Effect>,
    x: i32,
    y: i32,
    width: i32,
    height: i32,
    color: Color,
)
    ensures
        compile_spec(stack, x, y, width, height, color).len() >= 1,
        compile_spec(stack, x, y, width, height, color).last() == (RenderNode::DrawRect {
            x,
            y,
            width,
            height,
            color,
        }),
{
}

/// The compiled graph holds exactly one blur-then-Screen-composite pair per
/// glow effect on the stack: Screen composites and glows are equinumerous,
/// and every Screen composite is directly preceded by a blur pass.
pub proof fn lemma_compile_glow_pairs(
    stack: Seq<Effect>,
    x: i32,
    y: i32,
    width: i32,
    height: i32,
    color: Color,
)
    ensures
        count_screen(compile_spec(stack, x, y, width, height, color)) == count_glow(stack),
        forall|i: int|
            0 <= i < compile_spec(stack, x, y, width, height, color).len() && is_screen_composite(
                #[trigger] compile_spec(stack, x, y, width, height, color)[i],
            ) ==> i >= 1 && is_blur_pass(compile_spec(stack, x, y, width, height, color)[i - 1]),
{
    let g = compile_spec(stack, x, y, width, height, color);
    let tail = seq![RenderNode::DrawRect { x, y, width, height, color }];
    lemma_effects_nodes_glow(stack);
    lemma_count_screen_add(effects_nodes(stack), tail);
    assert(count_screen(tail) == 0) by {
        lemma_count_screen_single(RenderNode::DrawRect { x, y, width, height, color });
    }
    assert forall|i: int|
        0 <= i < g.len() && is_screen_composite(#[trigger] g[i]) implies i >= 1 && is_blur_pass(
        g[i - 1],
    ) by {
        if i < effects_nodes(stack).len() {
            assert(g[i] == effects_nodes(stack)[i]);
            assert(i >= 1 && is_blur_pass(effects_nodes(stack)[i - 1]));
            assert(g[i - 1] == effects_nodes(stack)[i - 1]);
        } else {
            assert(g[i] == tail[i - effects_nodes(stack).len()]);
        }
    }
}

/// The integer tag of each node kind in the flat submission encoding.
pub open spec fn node_tag(n: RenderNode) -> i32 {
    match n {
        RenderNode::Clear { .. } => 0,
        RenderNode::DrawRect { .. } => 1,
        RenderNode::BlurPass { .. } => 2,
        RenderNode::ShadowPass { .. } => 3,
        RenderNode::CompositePass { .. } => 4,
        RenderNode::ColorAdjust { .. } => 5,
    }
}

/// The integer code of each blend mode in the flat submission encoding.
pub open spec fn blend_mode_code(m: BlendMode) -> i64 {
    match m {
        BlendMode::Normal => 0,
        BlendMode::Multiply => 1,
        BlendMode::Screen => 2,
        BlendMode::Overlay => 3,
    }
}

/// The flattened parameter list of one node, in submission order.
pub open spec fn node_params(n: RenderNode) -> Seq<i64> {
    match n {
        RenderNode::Clear { color } => seq![
            color.r as i64,
            color.g as i64,
            color.b as i64,
            color.a as i64,
        ],
        RenderNode::DrawRect { x, y, width, height, color } => seq![
            x as i64,
            y as i64,
            width as i64,
            height as i64,
            color.r as i64,
            color.g as i64,
            color.b as i64,
            color.a as i64,
        ],
        RenderNode::BlurPass { radius, samples } => seq![radius as i64, samples as i64],
        RenderNode::ShadowPass { offset_x, offset_y, color, blur, opacity } => seq![
            offset_x as i64,
            offset_y as i64,
            color.r as i64,
            color.g as i64,
            color.b as i64,
            color.a as i64,
            blur as i64,
            opacity as i64,
        ],
        RenderNode::CompositePass { blend_mode } => seq![blend_mode_code(blend_mode)],
        RenderNode::ColorAdjust { brightness, contrast, saturation } => seq![
            brightness as i64,
            contrast as i64,
            saturation as i64,
        ],
    }
}

/// The node-kind tags of a whole graph, in order.
pub open spec fn encode_tags(g: Seq<RenderNode>) -> Seq<i32> {
    g.map_values(|n: RenderNode| node_tag(n))
}

/// The concatenated parameter lists of a whole graph, in order.
pub open spec fn encode_params(g: Seq<RenderNode>) -> Seq<i64>
    decreases g.len(),
{
    if g.len() == 0 {
        Seq::empty()
    } else {
        node_params(g[0]) + encode_params(g.skip(1))
    }
}

/// Appending one node to a graph appends its parameters.
proof fn lemma_encode_params_push(g: Seq<RenderNode>, n: RenderNode)
    ensures
        encode_params(g.push(n)) == encode_params(g) + node_params(n),
    decreases g.len(),
{
    if g.len() == 0 {
        assert(g.push(n)[0] == n);
        assert(g.push(n).skip(1) =~= Seq::<RenderNode>::empty());
        assert(encode_params(g.push(n).skip(1)) =~= Seq::<i64>::empty());
        assert(encode_params(g.push(n)) =~= node_params(n) + Seq::<i64>::empty());
        assert(node_params(n) + Seq::<i64>::empty() =~= node_params(n));
        assert(encode_params(g) =~= Seq::<i64>::empty());
        assert(encode_params(g) + node_params(n) =~= node_params(n));
    } else {
        assert(g.push(n).skip(1) =~= g.skip(1).push(n));
        lemma_encode_params_push(g.skip(1), n);
        assert(encode_params(g.push(n)) =~= encode_params(g) + node_params(n));
    }
}

/// Pushes the flattened parameters of one node onto the parameter vector.
fn push_node_params(params: &mut Vec<i64>, node: &RenderNode)
    ensures
        final(params)@ == old(params)@ + node_params(*node),
{
    match node {
        RenderNode::Clear { color } => {
            params.push(color.r as i64);
            params.push(color.g as i64);
            params.push(color.b as i64);
            params.push(color.a as i64);
        },
        RenderNode::DrawRect { x, y, width, height, color } => {
            params.push(*x as i64);
            params.push(*y as i64);
            params.push(*width as i64);
            params.push(*height as i64);
            params.push(color.r as i64);
            params.push(color.g as i64);
            params.push(color.b as i64);
            params.push(color.a as i64);
        },
        RenderNode::BlurPass { radius, samples } => {
            params.push(*radius as i64);
            params.push(*samples as i64);
        },
        RenderNode::ShadowPass { offset_x, offset_y, color, blur, opacity } => {
            params.push(*offset_x as i64);
            params.push(*offset_y as i64);
            params.push(color.r as i64);
            params.push(color.g as i64);
            params.push(color.b as i64);
            params.push(color.a as i64);
            params.push(*blur as i64);
            params.push(*opacity as i64);
        },
        RenderNode::CompositePass { blend_mode } => {
            let code: i64 = match blend_mode {
                BlendMode::Normal => 0,
                BlendMode::Multiply => 1,
                BlendMode::Screen => 2,
                BlendMode::Overlay => 3,
            };
            params.push(code);
        },
        RenderNode::ColorAdjust { brightness, contrast, saturation } => {
            params.push(*brightness as i64);
            params.push(*contrast as i64);
            params.push(*saturation as i64);
        },
    }
    proof {
        assert(final(params)@ =~= old(params)@ + node_params(*node));
    }
}

impl RenderGraph {
    /// Flattens the graph into the two parallel arrays of the submission
    /// format: one integer node-kind tag per node, and the concatenation of
    /// every node's parameter list. The cost of describing multi-pass
    /// effects is paid once, whatever the target.
    pub fn encode(&self) -> (enc: (Vec<i32>, Vec<i64>))
        ensures
            enc.0@ == encode_tags(self.nodes@),
            enc.1@ == encode_params(self.nodes@),
    {
        let mut tags: Vec<i32> = Vec::new();
        let mut params: Vec<i64> = Vec::new();
        let n: usize = self.nodes.len();
        let mut i: usize = 0;
        while i < n
            invariant
                i <= n,
                n == self.nodes@.len(),
                tags@ == encode_tags(self.nodes@.take(i as int)),
                params@ == encode_params(self.nodes@.take(i as int)),
            decreases n - i,
        {
            let node: &RenderNode = &self.nodes[i];
            let tag: i32 = match node {
                RenderNode::Clear { .. } => 0,
                RenderNode::DrawRect { .. } => 1,
                RenderNode::BlurPass { .. } => 2,
                RenderNode::ShadowPass { .. } => 3,
                RenderNode::CompositePass { .. } => 4,
                RenderNode::ColorAdjust { .. } => 5,
            };
            tags.push(tag);
            push_node_params(&mut params, node);
            proof {
                assert(self.nodes@.take(i as int + 1) =~= self.nodes@.take(i as int).push(
                    self.nodes@[i as int],
                ));
                lemma_encode_params_push(self.nodes@.take(i as int), self.nodes@[i as int]);
                assert(tags@ =~= encode_tags(self.nodes@.take(i as int + 1)));
                assert(params@ =~= encode_params(self.nodes@.take(i as int + 1)));
            }
            i = i + 1;
        }
        proof {
            assert(self.nodes@.take(n as int) =~= self.nodes@);
        }
        (tags, params)
    }
}

/// The color a shadow pass composites: the pass color with its alpha scaled
/// by the pass opacity.
pub open spec fn shadow_pass_color(c: Color, opacity: u8) -> Color {
    Color { r: c.r, g: c.g, b: c.b, a: (((c.a as int) * (opacity as int)) / 255) as u8 }
}

/// The value a pixel takes when one node is executed directly against a
/// canvas, for the target rectangle (rx, ry, rw, rh). Clear and DrawRect
/// write pixels; ShadowPass composites the box-blurred rectangular shadow;
/// BlurPass, CompositePass and ColorAdjust operate on intermediate layers
/// the direct path does not keep and change nothing.
pub open spec fn node_pixel(
    p: (u8, u8, u8, u8),
    qx: int,
    qy: int,
    rx: int,
    ry: int,
    rw: int,
    rh: int,
    n: RenderNode,
) -> (u8, u8, u8, u8) {
    match n {
        RenderNode::Clear { color } => stored_pixel(color),
        RenderNode::DrawRect { x, y, width, height, color } => if in_rect(
            qx,
            qy,
            x as int,
            y as int,
            width as int,
            height as int,
        ) {
            stored_pixel(color)
        } else {
            p
        },
        RenderNode::ShadowPass { offset_x, offset_y, color, blur, opacity } => if rw <= 0 || rh
            <= 0 {
            p
        } else {
            shadow_pixel(
                p,
                qx,
                qy,
                rx + offset_x,
                ry + offset_y,
                rw,
                rh,
                clamp_int(blur as int, 0, 8) / 2,
                blurred_mask(rect_mask_seq(rw, rh), rw, rh, clamp_int(blur as int, 0, 8)),
                shadow_pass_color(color, opacity),
            )
        },
        _ => p,
    }
}

/// The value a pixel takes when a whole graph is executed in order.
pub open spec fn graph_pixel(
    p: (u8, u8, u8, u8),
    qx: int,
    qy: int,
    rx: int,
    ry: int,
    rw: int,
    rh: int,
    g: Seq<RenderNode>,
) -> (u8, u8, u8, u8)
    decreases g.len(),
{
    if g.len() == 0 {
        p
    } else {
        graph_pixel(node_pixel(p, qx, qy, rx, ry, rw, rh, g[0]), qx, qy, rx, ry, rw, rh, g.skip(1))
    }
}

/// Executing one more node folds its pixel function over the graph's.
proof fn lemma_graph_pixel_push(
    p: (u8, u8, u8, u8),
    qx: int,
    qy: int,
    rx: int,
    ry: int,
    rw: int,
    rh: int,
    g: Seq<RenderNode>,
    n: RenderNode,
)
    ensures
        graph_pixel(p, qx, qy, rx, ry, rw, rh, g.push(n)) == node_pixel(
            graph_pixel(p, qx, qy, rx, ry, rw, rh, g),
            qx,
            qy,
            rx,
            ry,
            rw,
            rh,
            n,
        ),
    decreases g.len(),
{
    if g.len() == 0 {
        assert(g.push(n)[0] == n);
        assert(g.push(n).skip(1) =~= Seq::<RenderNode>::empty());
        assert(graph_pixel(p, qx, qy, rx, ry, rw, rh, g) == p);
        let q = node_pixel(p, qx, qy, rx, ry, rw, rh, n);
        assert(graph_pixel(q, qx, qy, rx, ry, rw, rh, g.push(n).skip(1)) == q);
        assert(graph_pixel(p, qx, qy, rx, ry, rw, rh, g.push(n)) == q);
    } else {
        assert(g.push(n)[0] == g[0]);
        assert(g.push(n).skip(1) =~= g.skip(1).push(n));
        lemma_graph_pixel_push(
            node_pixel(p, qx, qy, rx, ry, rw, rh, g[0]),
            qx,
            qy,
            rx,
            ry,
            rw,
            rh,
            g.skip(1),
            n,
        );
    }
}

/// Whether a node's parameters stay within the coordinate range the canvas
/// primitives accept, for a given target rectangle.
pub open spec fn node_executable(n: RenderNode, rx: int, ry: int, rw: int, rh: int) -> bool {
    match n {
        RenderNode::DrawRect { x, y, width, height, .. } => x + width <= i32::MAX && y + height
            <= i32::MAX,
        RenderNode::ShadowPass { offset_x, offset_y, .. } => {
            &&& rw * rh <= i32::MAX
            &&& i32::MIN <= rx + offset_x
            &&& i32::MIN <= ry + offset_y
            &&& rx + offset_x + rw + 4 <= i32::MAX
            &&& ry + offset_y + rh + 4 <= i32::MAX
        },
        _ => true,
    }
}

impl RenderGraph {
    /// Executes the graph directly against a canvas: the CPU path. Each node
    /// calls the corresponding canvas primitive; passes that operate on
    /// intermediate layers the direct path does not keep (blur, composite,
    /// color adjust) leave the canvas unchanged, the analytic shader
    /// evaluators standing in for them on this path.
    pub fn execute(&self, canvas: &mut Canvas, rx: i32, ry: i32, rw: i32, rh: i32)
        requires
            old(canvas).wf(),
            forall|i: int|
                0 <= i < self.nodes@.len() ==> node_executable(
                    #[trigger] self.nodes@[i],
                    rx as int,
                    ry as int,
                    rw as int,
                    rh as int,
                ),
        ensures
            final(canvas).wf(),
            same_shape(old(canvas), final(canvas)),
            forall|qx: int, qy: int|
                old(canvas).in_bounds(qx, qy) ==> #[trigger] final(canvas).pixel(qx, qy)
                    == graph_pixel(
                    old(canvas).pixel(qx, qy),
                    qx,
                    qy,
                    rx as int,
                    ry as int,
                    rw as int,
                    rh as int,
                    self.nodes@,
                ),
    {
        let n: usize = self.nodes.len();
        let mut i: usize = 0;
        while i < n
            invariant
                canvas.wf(),
                same_shape(old(canvas), canvas),
                i <= n,
                n == self.nodes@.len(),
                forall|k: int|
                    0 <= k < self.nodes@.len() ==> node_executable(
                        #[trigger] self.nodes@[k],
                        rx as int,
                        ry as int,
                        rw as int,
                        rh as int,
                    ),
                forall|qx: int, qy: int|
                    old(canvas).in_bounds(qx, qy) ==> #[trigger] canvas.pixel(qx, qy)
                        == graph_pixel(
                        old(canvas).pixel(qx, qy),
                        qx,
                        qy,
                        rx as int,
                        ry as int,
                        rw as int,
                        rh as int,
                        self.nodes@.take(i as int),
                    ),
            decreases n - i,
        {
            let node: &RenderNode = &self.nodes[i];
            match node {
                RenderNode::Clear { color } => {
                    canvas.clear(*color);
                },
                RenderNode::DrawRect { x, y, width, height, color } => {
                    canvas.fill_rect(*x, *y, *width, *height, *color);
                },
                RenderNode::ShadowPass { offset_x, offset_y, color, blur, opacity } => {
                    if rw > 0 && rh > 0 {
                        proof {
                            assert(0 <= (color.a as int) * (*opacity as int) <= 255
                                * 255) by (nonlinear_arith)
                                requires
                                    0 <= color.a as int <= 255,
                                    0 <= *opacity as int <= 255,
                            ;
                        }
                        let sa: u8 = (((color.a as u32) * (*opacity as u32)) / 255) as u8;
                        let sc = Color { r: color.r, g: color.g, b: color.b, a: sa };
                        canvas.draw_shadow(rx + *offset_x, ry + *offset_y, rw, rh, *blur, sc);
                    }
                },
                _ => {},
            }
            proof {
                assert(self.nodes@.take(i as int + 1) =~= self.nodes@.take(i as int).push(
                    self.nodes@[i as int],
                ));
                assert forall|qx: int, qy: int| old(canvas).in_bounds(qx, qy) implies #[trigger] canvas.pixel(
                    qx,
                    qy,
                ) == graph_pixel(
                    old(canvas).pixel(qx, qy),
                    qx,
                    qy,
                    rx as int,
                    ry as int,
                    rw as int,
                    rh as int,
                    self.nodes@.take(i as int + 1),
                ) by {
                    lemma_graph_pixel_push(
                        old(canvas).pixel(qx, qy),
                        qx,
                        qy,
                        rx as int,
                        ry as int,
                        rw as int,
                        rh as int,
                        self.nodes@.take(i as int),
                        self.nodes@[i as int],
                    );
                }
            }
            i = i + 1;
        }
        proof {
            assert(self.nodes@.take(n as int) =~= self.nodes@);
        }
    }
}

} // verus!
