//! The vector estimator: one step of the flow from noise to the latent.
//!
//! A step runs the vector field twice, once with the utterance and once with learned
//! tokens in its place, weighs the two results against each other, and moves the
//! latent along.

use vstd::prelude::*;

use crate::model::candle::conditioning::{
    part_name, part_name_of, part_prefix, part_prefix_of, style_cond, style_cond_seen, text_cond,
    text_cond_seen, time_cond, CondParts, StyleCondLayer, TextCondLayer, TimeCondLayer, HIDDEN,
    N_STYLE, ROTARY_DIM, ROWS, STYLE_DIM, TEXT_DIM, THETA, TIME_DIM,
};
use crate::model::candle::graph::{ap1, ap2, ap3, Expr, Op, Shape, Tape};
use crate::model::candle::layers::{
    named, reach, stack_seen, stack_value, take_named, ConvNextSpec, Naming, NamingView, Stack,
};
use crate::strings::{join, owned};

verus! {

/// Channels of the latent.
pub const LATENT_DIM: usize = 144;

/// Channels between the two layers that embed the time.
pub const TIME_HDIM: usize = 256;

/// The number of blocks.
pub const N_MAIN_BLOCKS: usize = 4;

/// How far apart the kernels of a block's first stack reach.
pub const WIDE_DILATIONS: [usize; 4] = [1, 2, 4, 8];

/// How far apart those of a block's other two stacks reach.
pub const SINGLE_DILATION: [usize; 1] = [1];

/// How far apart those of the last stack reach.
pub const LAST_DILATIONS: [usize; 4] = [1, 1, 1, 1];

/// Where the last stack stands.
pub const LAST_ROOT: &'static str = "vector_estimator.tts.ttl.vector_field.last_convnext.convnext.";

/// How strongly the utterance counts against the learned tokens, and how strongly
/// these count against it.
pub const GUIDANCE: usize = 4;

pub const COUNTER_GUIDANCE: usize = 3;

/// The sizes of the ConvNeXt blocks.
pub open spec fn convnext() -> ConvNextSpec {
    ConvNextSpec { channels: 512, inner: 2048, kernel: 5, dwconv: ".dwconv", causal: false }
}

/// The sizes of the ConvNeXt blocks.
fn convnext_sizes() -> (r: ConvNextSpec)
    ensures
        r == convnext(),
{
    ConvNextSpec { channels: 512, inner: 2048, kernel: 5, dwconv: ".dwconv", causal: false }
}

/// Whether the kernels fit around `t` steps.
pub open spec fn steps_fit(t: int) -> bool {
    0 < t && t + 32 <= usize::MAX
}

// ---------------------------------------------------------------------------
// One block
// ---------------------------------------------------------------------------

/// What the blocks are conditioned on.
pub struct Setting {
    pub time: Expr,
    pub text: Expr,
    pub keys: Expr,
    pub values: Expr,
    pub mask: Expr,
    pub text_mask: Expr,
    pub t: usize,
    pub s: usize,
}

/// The results that the blocks are conditioned on.
#[derive(Debug, Clone, Copy)]
pub struct SettingRegs {
    pub time: usize,
    pub text: usize,
    pub keys: usize,
    pub values: usize,
    pub mask: usize,
    pub text_mask: usize,
    pub t: usize,
    pub s: usize,
}

impl SettingRegs {
    /// Whether the results are those of a setting.
    pub open spec fn computed(self, tape: &Tape, e: Setting) -> bool {
        &&& self.t == e.t
        &&& self.s == e.s
        &&& tape.holds(self.time, e.time, Shape::D3(ROWS, TIME_DIM, 1))
        &&& tape.holds(self.text, e.text, Shape::D3(ROWS, TEXT_DIM, e.s))
        &&& tape.holds(self.keys, e.keys, Shape::D3(ROWS, N_STYLE, STYLE_DIM))
        &&& tape.holds(self.values, e.values, Shape::D3(ROWS, N_STYLE, STYLE_DIM))
        &&& tape.holds(self.mask, e.mask, Shape::D3(ROWS, 1, e.t))
        &&& tape.holds(self.text_mask, e.text_mask, Shape::D3(ROWS, 1, e.s))
    }
}

/// A block of the vector field.
pub struct MainBlock {
    pub convnext_0: Stack,
    pub time_cond: TimeCondLayer,
    pub convnext_1: Stack,
    pub text_cond: TextCondLayer,
    pub convnext_2: Stack,
    pub style_cond: StyleCondLayer,
}

/// What a block computes on the way to its output.
pub struct BlockParts {
    pub convnext_0: Expr,
    pub time_cond: Expr,
    pub convnext_1: Expr,
    pub text_cond: CondParts,
    pub convnext_2: Expr,
    pub style_cond: CondParts,
}

/// Where the blocks of a stack stand, which is a part of a block.
pub open spec fn stack_root(block: int, offset: int) -> Seq<char> {
    part_prefix(block, offset) + ".convnext."@
}

/// The output of a stack of a block.
pub open spec fn stack_out(block: int, offset: int, dilations: Seq<usize>, x: Expr, mask: Expr) -> Expr {
    stack_value(
        convnext(),
        stack_root(block, offset),
        dilations,
        x,
        Some(mask),
        dilations.len() as int,
    )
}

/// What a block computes from `x`.
pub open spec fn block_parts(block: int, x: Expr, e: Setting) -> BlockParts {
    let convnext_0 = stack_out(block, 0, WIDE_DILATIONS@, x, e.mask);
    let time_cond = time_cond(block, convnext_0, e.time, e.mask);
    let convnext_1 = stack_out(block, 2, SINGLE_DILATION@, time_cond, e.mask);
    let text_cond = text_cond(block, convnext_1, e.text, e.mask, e.text_mask, e.t, e.s);
    let convnext_2 = stack_out(block, 4, SINGLE_DILATION@, text_cond.out, e.mask);
    let style_cond = style_cond(block, convnext_2, e.keys, e.values, e.mask, e.t);
    BlockParts { convnext_0, time_cond, convnext_1, text_cond, convnext_2, style_cond }
}

/// The names of the outputs of a stack of a block.
pub open spec fn stack_names(
    block: int,
    offset: int,
    dilations: Seq<usize>,
    x: Expr,
    mask: Expr,
) -> Seq<(Seq<char>, Expr)> {
    stack_seen(
        convnext(),
        stack_root(block, offset),
        dilations,
        x,
        Some(mask),
        NamingView::Outer(part_name(block, offset)),
        dilations.len() as int,
    )
}

/// The names of what a block computes from `x`.
pub open spec fn block_seen(block: int, x: Expr, e: Setting) -> Seq<(Seq<char>, Expr)> {
    let p = block_parts(block, x, e);
    stack_names(block, 0, WIDE_DILATIONS@, x, e.mask) + seq![
        (part_name(block, 1) + "Mul_output_0"@, p.time_cond),
    ] + stack_names(block, 2, SINGLE_DILATION@, p.time_cond, e.mask) + text_cond_seen(
        block,
        p.text_cond,
    ) + stack_names(block, 4, SINGLE_DILATION@, p.text_cond.out, e.mask) + style_cond_seen(
        block,
        p.style_cond,
    )
}

/// Whether a stack of a block is loaded.
pub open spec fn stack_ready(
    stack: &Stack,
    tape: &Tape,
    block: int,
    offset: int,
    dilations: Seq<usize>,
) -> bool {
    &&& stack.loaded(tape)
    &&& stack.sizes == convnext()
    &&& stack.root@ == stack_root(block, offset)
    &&& stack.dilations@ == dilations
}

/// Loads a stack of a block.
fn load_stack(tape: &mut Tape, block: usize, offset: usize, dilations: Vec<usize>) -> (r: Stack)
    requires
        old(tape).wf(),
        block < N_MAIN_BLOCKS,
        offset < 6,
        forall|i: int| 0 <= i < dilations@.len() ==> #[trigger] dilations@[i] > 0,
    ensures
        final(tape).wf(),
        final(tape).extends(old(tape)),
        final(tape).seen@ == old(tape).seen@,
        stack_ready(&r, final(tape), block as int, offset as int, dilations@),
{
    let at = part_prefix_of(block, offset);
    let root = join(at.as_str(), ".convnext.");
    Stack::load(tape, convnext_sizes(), root, dilations)
}

/// Applies a stack of a block to `x`.
fn forward_stack(
    tape: &mut Tape,
    stack: &Stack,
    x: usize,
    mask: usize,
    t: usize,
    block: usize,
    offset: usize,
    dilations: Ghost<Seq<usize>>,
) -> (r: usize)
    requires
        old(tape).wf(),
        block < N_MAIN_BLOCKS,
        offset < 6,
        stack_ready(stack, old(tape), block as int, offset as int, dilations@),
        old(tape).has(x, Shape::D3(ROWS, HIDDEN, t)),
        old(tape).has(mask, Shape::D3(ROWS, 1, t)),
        steps_fit(t as int),
        forall|i: int| 0 <= i < dilations@.len() ==> #[trigger] dilations@[i] <= 8,
    ensures
        final(tape).wf(),
        final(tape).extends(old(tape)),
        final(tape).seen@ == old(tape).seen@ + stack_names(
            block as int,
            offset as int,
            dilations@,
            old(tape).value(x),
            old(tape).value(mask),
        ),
        final(tape).holds(
            r,
            stack_out(
                block as int,
                offset as int,
                dilations@,
                old(tape).value(x),
                old(tape).value(mask),
            ),
            Shape::D3(ROWS, HIDDEN, t),
        ),
{
    let names = Naming::Outer(part_name_of(block, offset));
    assert(stack.has_room(t as int)) by {
        assert forall|i: int| 0 <= i < stack.dilations@.len() implies t + reach(
            5,
            #[trigger] stack.dilations@[i] as int,
        ) <= usize::MAX by {
            assert(dilations@[i] <= 8);
        }
    }
    stack.forward(tape, x, Some(mask), ROWS, t, &names)
}

impl MainBlock {
    /// Whether a block is loaded.
    pub open spec fn loaded(&self, tape: &Tape, block: int) -> bool {
        &&& stack_ready(&self.convnext_0, tape, block, 0, WIDE_DILATIONS@)
        &&& self.time_cond.loaded(tape, block)
        &&& stack_ready(&self.convnext_1, tape, block, 2, SINGLE_DILATION@)
        &&& self.text_cond.loaded(tape, block)
        &&& stack_ready(&self.convnext_2, tape, block, 4, SINGLE_DILATION@)
        &&& self.style_cond.loaded(tape, block)
    }

    /// Loads a block. The angles of the rotations are shared by all blocks.
    pub fn load(tape: &mut Tape, block: usize, theta: usize) -> (r: MainBlock)
        requires
            old(tape).wf(),
            block < N_MAIN_BLOCKS,
            old(tape).holds(
                theta,
                named(THETA, Shape::D3(1, 1, ROTARY_DIM)),
                Shape::D3(1, 1, ROTARY_DIM),
            ),
        ensures
            final(tape).wf(),
            final(tape).extends(old(tape)),
            final(tape).seen@ == old(tape).seen@,
            r.loaded(final(tape), block as int),
    {
        let wide: Vec<usize> = vec![1, 2, 4, 8];
        assert(wide@ == WIDE_DILATIONS@);
        let convnext_0 = load_stack(tape, block, 0, wide);
        let time_cond = TimeCondLayer::load(tape, block);
        let single: Vec<usize> = vec![1];
        assert(single@ == SINGLE_DILATION@);
        let convnext_1 = load_stack(tape, block, 2, single);
        let text_cond = TextCondLayer::load(tape, block, theta);
        let single: Vec<usize> = vec![1];
        assert(single@ == SINGLE_DILATION@);
        let convnext_2 = load_stack(tape, block, 4, single);
        let style_cond = StyleCondLayer::load(tape, block);
        MainBlock { convnext_0, time_cond, convnext_1, text_cond, convnext_2, style_cond }
    }

    /// Applies the block to `x`, of `[2, 512, t]`, and names what it computes.
    #[verifier::rlimit(40)]
    pub(crate) fn forward(
        &self,
        tape: &mut Tape,
        x: usize,
        e: SettingRegs,
        block: usize,
        setting: Ghost<Setting>,
    ) -> (r: usize)
        requires
            old(tape).wf(),
            block < N_MAIN_BLOCKS,
            self.loaded(old(tape), block as int),
            e.computed(old(tape), setting@),
            old(tape).has(x, Shape::D3(ROWS, HIDDEN, e.t)),
            steps_fit(e.t as int),
        ensures
            final(tape).wf(),
            final(tape).extends(old(tape)),
            final(tape).seen@ == old(tape).seen@ + block_seen(
                block as int,
                old(tape).value(x),
                setting@,
            ),
            final(tape).holds(
                r,
                block_parts(block as int, old(tape).value(x), setting@).style_cond.out,
                Shape::D3(ROWS, HIDDEN, e.t),
            ),
    {
        let ghost s0 = tape.seen@;
        let ghost n = block as int;
        let ghost vx = tape.value(x);
        let ghost p = block_parts(n, vx, setting@);
        let h = forward_stack(
            tape,
            &self.convnext_0,
            x,
            e.mask,
            e.t,
            block,
            0,
            Ghost(WIDE_DILATIONS@),
        );
        let ghost s1 = tape.seen@;
        let h = self.time_cond.forward(tape, h, e.time, e.mask, e.t, Ghost(n));
        let at = part_name_of(block, 1);
        tape.record(join(at.as_str(), "Mul_output_0"), h);
        let ghost s2 = tape.seen@;
        let h = forward_stack(
            tape,
            &self.convnext_1,
            h,
            e.mask,
            e.t,
            block,
            2,
            Ghost(SINGLE_DILATION@),
        );
        let ghost s3 = tape.seen@;
        let h = self.text_cond.forward_hooked(
            tape,
            h,
            e.text,
            e.mask,
            e.text_mask,
            e.t,
            e.s,
            block,
        );
        let ghost s4 = tape.seen@;
        let h = forward_stack(
            tape,
            &self.convnext_2,
            h,
            e.mask,
            e.t,
            block,
            4,
            Ghost(SINGLE_DILATION@),
        );
        let ghost s5 = tape.seen@;
        let h = self.style_cond.forward_hooked(
            tape,
            h,
            e.keys,
            e.values,
            e.mask,
            e.t,
            block,
        );
        proof {
            let s6 = tape.seen@;
            let l0 = stack_names(n, 0, WIDE_DILATIONS@, vx, setting@.mask);
            let l1 = seq![(part_name(n, 1) + "Mul_output_0"@, p.time_cond)];
            let l2 = stack_names(n, 2, SINGLE_DILATION@, p.time_cond, setting@.mask);
            let l3 = text_cond_seen(n, p.text_cond);
            let l4 = stack_names(n, 4, SINGLE_DILATION@, p.text_cond.out, setting@.mask);
            let l5 = style_cond_seen(n, p.style_cond);
            assert(s1 == s0 + l0);
            assert(s2 == s1 + l1);
            assert(s3 == s2 + l2);
            assert(s4 == s3 + l3);
            assert(s5 == s4 + l4);
            assert(s6 == s5 + l5);
            assert(s6 == s0 + block_seen(n, vx, setting@));
        }
        h
    }
}

// ---------------------------------------------------------------------------
// The embedding of the time
// ---------------------------------------------------------------------------

/// Where the factor of the time stands.
pub const TIME_SCALE: &'static str =
    "/vector_estimator/vector_field/time_encoder/sinusoidal/Constant_2_output_0";

/// Where the frequencies stand.
pub const INV_FREQ: &'static str =
    "/vector_estimator/vector_field/time_encoder/sinusoidal/Constant_3_output_0";

/// The layers that embed the time.
#[derive(Debug)]
pub struct TimeEncoder {
    pub t_scale: usize,
    pub inv_freq: usize,
    pub mlp0_weight: usize,
    pub mlp0_bias: usize,
    pub mlp2_weight: usize,
    pub mlp2_bias: usize,
}

/// The embedding of the times of two rows: sines and cosines of the scaled time, and
/// two layers upon them.
pub open spec fn time_embedding(time: Expr) -> Expr {
    let scaled = ap2(
        Op::TimesScalar,
        ap1(Op::Reshape(Shape::D2(ROWS, 1)), time),
        named(TIME_SCALE, Shape::D0),
    );
    let phase = ap2(Op::Mul, scaled, named(INV_FREQ, Shape::D2(1, 32)));
    let waves = ap2(Op::Cat { dim: 1 }, ap1(Op::Sin, phase), ap1(Op::Cos, phase));
    let mlp0 = ap3(
        Op::Linear,
        waves,
        named(
            "vector_estimator.tts.ttl.vector_field.time_encoder.mlp.0.linear.weight",
            Shape::D2(TIME_HDIM, TIME_DIM),
        ),
        named(
            "vector_estimator.tts.ttl.vector_field.time_encoder.mlp.0.linear.bias",
            Shape::D1(TIME_HDIM),
        ),
    );
    let mlp2 = ap3(
        Op::Linear,
        ap1(Op::Mish, mlp0),
        named(
            "vector_estimator.tts.ttl.vector_field.time_encoder.mlp.2.linear.weight",
            Shape::D2(TIME_DIM, TIME_HDIM),
        ),
        named(
            "vector_estimator.tts.ttl.vector_field.time_encoder.mlp.2.linear.bias",
            Shape::D1(TIME_DIM),
        ),
    );
    ap1(Op::Reshape(Shape::D3(ROWS, TIME_DIM, 1)), mlp2)
}

impl TimeEncoder {
    /// Whether the layers are loaded.
    pub open spec fn loaded(&self, tape: &Tape) -> bool {
        let freq = Shape::D2(1, 32);
        let w0 = Shape::D2(TIME_HDIM, TIME_DIM);
        let b0 = Shape::D1(TIME_HDIM);
        let w2 = Shape::D2(TIME_DIM, TIME_HDIM);
        let b2 = Shape::D1(TIME_DIM);
        &&& tape.holds(self.t_scale, named(TIME_SCALE, Shape::D0), Shape::D0)
        &&& tape.holds(self.inv_freq, named(INV_FREQ, freq), freq)
        &&& tape.holds(
            self.mlp0_weight,
            named("vector_estimator.tts.ttl.vector_field.time_encoder.mlp.0.linear.weight", w0),
            w0,
        )
        &&& tape.holds(
            self.mlp0_bias,
            named("vector_estimator.tts.ttl.vector_field.time_encoder.mlp.0.linear.bias", b0),
            b0,
        )
        &&& tape.holds(
            self.mlp2_weight,
            named("vector_estimator.tts.ttl.vector_field.time_encoder.mlp.2.linear.weight", w2),
            w2,
        )
        &&& tape.holds(
            self.mlp2_bias,
            named("vector_estimator.tts.ttl.vector_field.time_encoder.mlp.2.linear.bias", b2),
            b2,
        )
    }

    /// Loads the layers.
    pub fn load(tape: &mut Tape) -> (r: TimeEncoder)
        requires
            old(tape).wf(),
        ensures
            final(tape).wf(),
            final(tape).extends(old(tape)),
            final(tape).seen@ == old(tape).seen@,
            r.loaded(final(tape)),
    {
        let t_scale = take_named(tape, TIME_SCALE, Shape::D0);
        let inv_freq = take_named(tape, INV_FREQ, Shape::D2(1, 32));
        let mlp0_weight = take_named(
            tape,
            "vector_estimator.tts.ttl.vector_field.time_encoder.mlp.0.linear.weight",
            Shape::D2(TIME_HDIM, TIME_DIM),
        );
        let mlp0_bias = take_named(
            tape,
            "vector_estimator.tts.ttl.vector_field.time_encoder.mlp.0.linear.bias",
            Shape::D1(TIME_HDIM),
        );
        let mlp2_weight = take_named(
            tape,
            "vector_estimator.tts.ttl.vector_field.time_encoder.mlp.2.linear.weight",
            Shape::D2(TIME_DIM, TIME_HDIM),
        );
        let mlp2_bias = take_named(
            tape,
            "vector_estimator.tts.ttl.vector_field.time_encoder.mlp.2.linear.bias",
            Shape::D1(TIME_DIM),
        );
        TimeEncoder { t_scale, inv_freq, mlp0_weight, mlp0_bias, mlp2_weight, mlp2_bias }
    }

    /// Embeds the times of two rows.
    pub fn forward(&self, tape: &mut Tape, time: usize) -> (r: usize)
        requires
            old(tape).wf(),
            self.loaded(old(tape)),
            old(tape).has(time, Shape::D1(ROWS)),
        ensures
            final(tape).wf(),
            final(tape).extends(old(tape)),
            final(tape).seen@ == old(tape).seen@,
            final(tape).holds(
                r,
                time_embedding(old(tape).value(time)),
                Shape::D3(ROWS, TIME_DIM, 1),
            ),
    {
        assert(ROWS * 1 == 2 && TIME_DIM * 1 == 64 && ROWS * TIME_DIM == 128 && ROWS * TIME_DIM * 1
            == 128) by (nonlinear_arith)
            requires
                ROWS == 2,
                TIME_DIM == 64,
        ;
        let h = tape.op1(Op::Reshape(Shape::D2(ROWS, 1)), time);
        let h = tape.op2(Op::TimesScalar, h, self.t_scale);
        let phase = tape.op2(Op::Mul, h, self.inv_freq);
        let sin = tape.op1(Op::Sin, phase);
        let cos = tape.op1(Op::Cos, phase);
        let h = tape.op2(Op::Cat { dim: 1 }, sin, cos);
        let h = tape.op3(Op::Linear, h, self.mlp0_weight, self.mlp0_bias);
        let h = tape.op1(Op::Mish, h);
        let h = tape.op3(Op::Linear, h, self.mlp2_weight, self.mlp2_bias);
        tape.op1(Op::Reshape(Shape::D3(ROWS, TIME_DIM, 1)), h)
    }
}

// ---------------------------------------------------------------------------
// The network
// ---------------------------------------------------------------------------

/// The vector estimator's weights.
pub struct CandleVectorEstimator {
    pub proj_in: usize,
    pub time_encoder: TimeEncoder,
    pub main_blocks: Vec<MainBlock>,
    pub last_convnext: Stack,
    pub proj_out: usize,
    pub text_special: usize,
    pub style_key_special: usize,
    pub style_value_special: usize,
    pub style_key_cond: usize,
}

/// The inputs of one step.
pub struct StepInputs {
    pub noisy_latent: Expr,
    pub text_emb: Expr,
    pub style_ttl: Expr,
    pub latent_mask: Expr,
    pub text_mask: Expr,
    pub current_step: Expr,
    pub total_step: Expr,
}

/// The results that are the inputs of one step.
#[derive(Debug, Clone, Copy)]
pub struct StepRegs {
    pub noisy_latent: usize,
    pub text_emb: usize,
    pub style_ttl: usize,
    pub latent_mask: usize,
    pub text_mask: usize,
    pub current_step: usize,
    pub total_step: usize,
}

impl StepRegs {
    /// Whether the inputs of a step with `t` frames and a text of `s` ids are there.
    pub open spec fn ready(self, tape: &Tape, t: usize, s: usize) -> bool {
        &&& tape.has(self.noisy_latent, Shape::D3(1, LATENT_DIM, t))
        &&& tape.has(self.text_emb, Shape::D3(1, TEXT_DIM, s))
        &&& tape.has(self.style_ttl, Shape::D3(1, N_STYLE, STYLE_DIM))
        &&& tape.has(self.latent_mask, Shape::D3(1, 1, t))
        &&& tape.has(self.text_mask, Shape::D3(1, 1, s))
        &&& tape.has(self.current_step, Shape::D1(1))
        &&& tape.has(self.total_step, Shape::D1(1))
    }

    /// What the inputs are.
    pub open spec fn inputs(self, tape: &Tape) -> StepInputs {
        StepInputs {
            noisy_latent: tape.value(self.noisy_latent),
            text_emb: tape.value(self.text_emb),
            style_ttl: tape.value(self.style_ttl),
            latent_mask: tape.value(self.latent_mask),
            text_mask: tape.value(self.text_mask),
            current_step: tape.value(self.current_step),
            total_step: tape.value(self.total_step),
        }
    }
}

/// Where the learned tokens stand.
pub const TEXT_SPECIAL: &'static str = "vector_estimator.tts.ttl.uncond_masker.text_special_token";

pub const KEY_SPECIAL: &'static str =
    "vector_estimator.tts.ttl.uncond_masker.style_key_special_token";

pub const VALUE_SPECIAL: &'static str =
    "vector_estimator.tts.ttl.uncond_masker.style_value_special_token";

/// Where the keys of the style stand.
pub const KEY_COND: &'static str = "/vector_estimator/Expand_output_0";

/// Where the first and the last projection stand.
pub const PROJ_IN: &'static str = "vector_estimator.tts.ttl.vector_field.proj_in.net.weight";

pub const PROJ_OUT: &'static str = "vector_estimator.tts.ttl.vector_field.proj_out.net.weight";

/// Two rows, one after the other.
pub open spec fn rows(a: Expr, b: Expr) -> Expr {
    ap2(Op::Cat { dim: 0 }, a, b)
}

/// What the blocks are conditioned on: the utterance in the first row, the learned
/// tokens in the second.
pub open spec fn setting(i: StepInputs, t: usize, s: usize) -> Setting {
    let style = Shape::D3(1, N_STYLE, STYLE_DIM);
    let time = ap2(Op::Div, i.current_step, i.total_step);
    let token = ap2(
        Op::Mul,
        ap1(
            Op::Expand(Shape::D3(1, TEXT_DIM, s)),
            named(TEXT_SPECIAL, Shape::D3(1, TEXT_DIM, 1)),
        ),
        i.text_mask,
    );
    Setting {
        time: time_embedding(rows(time, time)),
        text: rows(i.text_emb, token),
        keys: rows(named(KEY_COND, style), named(KEY_SPECIAL, style)),
        values: rows(i.style_ttl, named(VALUE_SPECIAL, style)),
        mask: rows(i.latent_mask, i.latent_mask),
        text_mask: rows(i.text_mask, i.text_mask),
        t,
        s,
    }
}

/// What the blocks start from.
pub open spec fn field_start(i: StepInputs, e: Setting) -> Expr {
    ap2(
        Op::Mul,
        ap2(
            Op::Conv { dilation: 1, groups: 1 },
            rows(i.noisy_latent, i.noisy_latent),
            named(PROJ_IN, Shape::D3(HIDDEN, LATENT_DIM, 1)),
        ),
        e.mask,
    )
}

/// The output of the first `n` blocks.
pub open spec fn blocks_value(x: Expr, e: Setting, n: int) -> Expr
    decreases n,
{
    if n <= 0 {
        x
    } else {
        block_parts(n - 1, blocks_value(x, e, n - 1), e).style_cond.out
    }
}

/// The names of what the first `n` blocks compute.
pub open spec fn blocks_seen(x: Expr, e: Setting, n: int) -> Seq<(Seq<char>, Expr)>
    decreases n,
{
    if n <= 0 {
        seq![]
    } else {
        blocks_seen(x, e, n - 1) + block_seen(n - 1, blocks_value(x, e, n - 1), e)
    }
}

/// The vector field, from the output of the blocks.
pub open spec fn field_end(x: Expr, mask: Expr) -> Expr {
    let last = stack_value(
        convnext(),
        LAST_ROOT@,
        LAST_DILATIONS@,
        x,
        Some(mask),
        LAST_DILATIONS@.len() as int,
    );
    ap2(
        Op::Mul,
        ap2(
            Op::Conv { dilation: 1, groups: 1 },
            last,
            named(PROJ_OUT, Shape::D3(LATENT_DIM, HIDDEN, 1)),
        ),
        mask,
    )
}

/// The names of what the last stack computes.
pub open spec fn last_seen(x: Expr, mask: Expr) -> Seq<(Seq<char>, Expr)> {
    stack_seen(
        convnext(),
        LAST_ROOT@,
        LAST_DILATIONS@,
        x,
        Some(mask),
        NamingView::Outer("last_convnext/"@),
        LAST_DILATIONS@.len() as int,
    )
}

/// The vector field at the latent, in both rows.
pub open spec fn vector_field(i: StepInputs, t: usize, s: usize) -> Expr {
    let e = setting(i, t, s);
    field_end(blocks_value(field_start(i, e), e, N_MAIN_BLOCKS as int), e.mask)
}

/// The latent, moved along the vector field by one step: four times the first row
/// less three times the second, over the number of steps.
pub open spec fn moved(i: StepInputs, field: Expr) -> Expr {
    let with = ap1(Op::Narrow { dim: 0, start: 0, len: 1 }, field);
    let without = ap1(Op::Narrow { dim: 0, start: 1, len: 1 }, field);
    let guided = ap2(
        Op::Sub,
        ap1(Op::Times(GUIDANCE), with),
        ap1(Op::Times(COUNTER_GUIDANCE), without),
    );
    ap2(
        Op::Mul,
        ap2(Op::Add, i.noisy_latent, ap2(Op::OverFirst, guided, i.total_step)),
        i.latent_mask,
    )
}

/// The names of what a step computes.
pub open spec fn step_seen(i: StepInputs, t: usize, s: usize) -> Seq<(Seq<char>, Expr)> {
    let e = setting(i, t, s);
    let start = field_start(i, e);
    let before = seq![("time_encoder/output"@, e.time), ("proj_in/Mul_output_0"@, start)];
    let last = last_seen(blocks_value(start, e, N_MAIN_BLOCKS as int), e.mask);
    before + blocks_seen(start, e, N_MAIN_BLOCKS as int) + last + seq![
        ("proj_out/Mul_output_0"@, vector_field(i, t, s)),
    ]
}

impl CandleVectorEstimator {
    /// Whether the first and the last projection are loaded.
    pub open spec fn projections_loaded(&self, tape: &Tape) -> bool {
        let proj_in = Shape::D3(HIDDEN, LATENT_DIM, 1);
        let proj_out = Shape::D3(LATENT_DIM, HIDDEN, 1);
        &&& tape.holds(self.proj_in, named(PROJ_IN, proj_in), proj_in)
        &&& tape.holds(self.proj_out, named(PROJ_OUT, proj_out), proj_out)
    }

    /// Whether the last stack is loaded.
    pub open spec fn last_loaded(&self, tape: &Tape) -> bool {
        &&& self.last_convnext.loaded(tape)
        &&& self.last_convnext.sizes == convnext()
        &&& self.last_convnext.root@ == LAST_ROOT@
        &&& self.last_convnext.dilations@ == LAST_DILATIONS@
    }

    /// Weights stay loaded while a program grows.
    proof fn lemma_stays(&self, before: &Tape, after: &Tape)
        requires
            self.loaded(before),
            after.extends(before),
        ensures
            self.loaded(after),
    {
        assert forall|i: int| 0 <= i < N_MAIN_BLOCKS implies (#[trigger] self.main_blocks@[i]).loaded(
            after,
            i,
        ) by {
            lemma_block_stays(self.main_blocks@[i], before, after, i);
        }
    }

    /// Whether all weights are loaded.
    pub open spec fn loaded(&self, tape: &Tape) -> bool {
        let style = Shape::D3(1, N_STYLE, STYLE_DIM);
        let token = Shape::D3(1, TEXT_DIM, 1);
        &&& self.projections_loaded(tape)
        &&& self.time_encoder.loaded(tape)
        &&& self.main_blocks@.len() == N_MAIN_BLOCKS
        &&& forall|i: int|
            0 <= i < N_MAIN_BLOCKS ==> (#[trigger] self.main_blocks@[i]).loaded(tape, i)
        &&& self.last_loaded(tape)
        &&& tape.holds(self.text_special, named(TEXT_SPECIAL, token), token)
        &&& tape.holds(self.style_key_special, named(KEY_SPECIAL, style), style)
        &&& tape.holds(self.style_value_special, named(VALUE_SPECIAL, style), style)
        &&& tape.holds(self.style_key_cond, named(KEY_COND, style), style)
    }

    /// Loads the weights.
    pub fn load(tape: &mut Tape) -> (r: CandleVectorEstimator)
        requires
            old(tape).wf(),
        ensures
            final(tape).wf(),
            final(tape).extends(old(tape)),
            final(tape).seen@ == old(tape).seen@,
            r.loaded(final(tape)),
    {
        let style = Shape::D3(1, N_STYLE, STYLE_DIM);
        let proj_in = take_named(tape, PROJ_IN, Shape::D3(HIDDEN, LATENT_DIM, 1));
        let time_encoder = TimeEncoder::load(tape);
        let theta = take_named(tape, THETA, Shape::D3(1, 1, ROTARY_DIM));
        let mut main_blocks: Vec<MainBlock> = Vec::new();
        let ghost before = *tape;
        for i in 0..N_MAIN_BLOCKS
            invariant
                tape.wf(),
                tape.extends(&before),
                tape.seen@ == before.seen@,
                before.holds(
                    theta,
                    named(THETA, Shape::D3(1, 1, ROTARY_DIM)),
                    Shape::D3(1, 1, ROTARY_DIM),
                ),
                main_blocks@.len() == i,
                forall|k: int| 0 <= k < i ==> (#[trigger] main_blocks@[k]).loaded(tape, k),
        {
            let ghost so_far = *tape;
            let block = MainBlock::load(tape, i, theta);
            proof {
                assert forall|k: int| 0 <= k < i implies (#[trigger] main_blocks@[k]).loaded(
                    tape,
                    k,
                ) by {
                    lemma_block_stays(main_blocks@[k], &so_far, tape, k);
                }
            }
            main_blocks.push(block);
        }
        let ghost built = *tape;
        let dilations: Vec<usize> = vec![1, 1, 1, 1];
        assert(dilations@ == LAST_DILATIONS@);
        let last_convnext = Stack::load(tape, convnext_sizes(), owned(LAST_ROOT), dilations);
        let proj_out = take_named(tape, PROJ_OUT, Shape::D3(LATENT_DIM, HIDDEN, 1));
        let text_special = take_named(tape, TEXT_SPECIAL, Shape::D3(1, TEXT_DIM, 1));
        let style_key_special = take_named(tape, KEY_SPECIAL, style);
        let style_value_special = take_named(tape, VALUE_SPECIAL, style);
        let style_key_cond = take_named(tape, KEY_COND, style);
        proof {
            assert forall|k: int| 0 <= k < N_MAIN_BLOCKS implies (#[trigger] main_blocks@[k]).loaded(
                tape,
                k,
            ) by {
                lemma_block_stays(main_blocks@[k], &built, tape, k);
            }
        }
        CandleVectorEstimator {
            proj_in,
            time_encoder,
            main_blocks,
            last_convnext,
            proj_out,
            text_special,
            style_key_special,
            style_value_special,
            style_key_cond,
        }
    }
    /// Makes what the blocks are conditioned on.
    fn set(&self, tape: &mut Tape, i: StepRegs, t: usize, s: usize) -> (r: SettingRegs)
        requires
            old(tape).wf(),
            self.loaded(old(tape)),
            i.ready(old(tape), t, s),
        ensures
            final(tape).wf(),
            final(tape).extends(old(tape)),
            final(tape).seen@ == old(tape).seen@,
            r.computed(final(tape), setting(i.inputs(old(tape)), t, s)),
    {
        let two = Op::Cat { dim: 0 };
        let mask = tape.op2(two, i.latent_mask, i.latent_mask);
        let text_mask = tape.op2(two, i.text_mask, i.text_mask);
        let token = tape.op1(Op::Expand(Shape::D3(1, TEXT_DIM, s)), self.text_special);
        let token = tape.op2(Op::Mul, token, i.text_mask);
        let text = tape.op2(two, i.text_emb, token);
        let keys = tape.op2(two, self.style_key_cond, self.style_key_special);
        let values = tape.op2(two, i.style_ttl, self.style_value_special);
        let time = tape.op2(Op::Div, i.current_step, i.total_step);
        let time = tape.op2(two, time, time);
        let time = self.time_encoder.forward(tape, time);
        SettingRegs { time, text, keys, values, mask, text_mask, t, s }
    }

    /// Runs the blocks.
    fn run_blocks(
        &self,
        tape: &mut Tape,
        x: usize,
        e: SettingRegs,
        setting: Ghost<Setting>,
    ) -> (r: usize)
        requires
            old(tape).wf(),
            self.loaded(old(tape)),
            e.computed(old(tape), setting@),
            old(tape).has(x, Shape::D3(ROWS, HIDDEN, e.t)),
            steps_fit(e.t as int),
        ensures
            final(tape).wf(),
            final(tape).extends(old(tape)),
            final(tape).seen@ == old(tape).seen@ + blocks_seen(
                old(tape).value(x),
                setting@,
                N_MAIN_BLOCKS as int,
            ),
            final(tape).holds(
                r,
                blocks_value(old(tape).value(x), setting@, N_MAIN_BLOCKS as int),
                Shape::D3(ROWS, HIDDEN, e.t),
            ),
    {
        let ghost start = *tape;
        let ghost vx = tape.value(x);
        let mut h: usize = x;
        assert(start.seen@ + seq![] == start.seen@);
        for i in 0..N_MAIN_BLOCKS
            invariant
                start == *old(tape),
                tape.wf(),
                tape.extends(&start),
                self.loaded(&start),
                e.computed(&start, setting@),
                steps_fit(e.t as int),
                tape.seen@ == start.seen@ + blocks_seen(vx, setting@, i as int),
                tape.holds(
                    h,
                    blocks_value(vx, setting@, i as int),
                    Shape::D3(ROWS, HIDDEN, e.t),
                ),
        {
            let block = &self.main_blocks[i];
            proof {
                lemma_block_stays(*block, &start, tape, i as int);
            }
            let ghost vh = tape.value(h);
            h = block.forward(tape, h, e, i, setting);
            proof {
                let had = blocks_seen(vx, setting@, i as int);
                let more = block_seen(i as int, vh, setting@);
                assert(start.seen@ + had + more == start.seen@ + (had + more));
            }
        }
        h
    }

    /// Makes what the blocks start from.
    fn begin(&self, tape: &mut Tape, i: StepRegs, mask: usize, t: usize, e: Ghost<Setting>) -> (r:
        usize)
        requires
            old(tape).wf(),
            self.projections_loaded(old(tape)),
            old(tape).has(i.noisy_latent, Shape::D3(1, LATENT_DIM, t)),
            old(tape).holds(mask, e@.mask, Shape::D3(ROWS, 1, t)),
            steps_fit(t as int),
        ensures
            final(tape).wf(),
            final(tape).extends(old(tape)),
            final(tape).seen@ == old(tape).seen@,
            final(tape).holds(
                r,
                field_start(i.inputs(old(tape)), e@),
                Shape::D3(ROWS, HIDDEN, t),
            ),
    {
        let noisy = tape.op2(Op::Cat { dim: 0 }, i.noisy_latent, i.noisy_latent);
        let h = tape.op2(Op::Conv { dilation: 1, groups: 1 }, noisy, self.proj_in);
        tape.op2(Op::Mul, h, mask)
    }

    /// Makes the vector field from the output of the blocks.
    fn finish(&self, tape: &mut Tape, x: usize, mask: usize, t: usize) -> (r: usize)
        requires
            old(tape).wf(),
            self.last_loaded(old(tape)),
            self.projections_loaded(old(tape)),
            old(tape).has(x, Shape::D3(ROWS, HIDDEN, t)),
            old(tape).has(mask, Shape::D3(ROWS, 1, t)),
            steps_fit(t as int),
        ensures
            final(tape).wf(),
            final(tape).extends(old(tape)),
            final(tape).seen@ == old(tape).seen@ + last_seen(
                old(tape).value(x),
                old(tape).value(mask),
            ),
            final(tape).holds(
                r,
                field_end(old(tape).value(x), old(tape).value(mask)),
                Shape::D3(ROWS, LATENT_DIM, t),
            ),
    {
        assert(self.last_convnext.has_room(t as int)) by {
            assert forall|k: int| 0 <= k < LAST_DILATIONS@.len() implies t + reach(
                5,
                #[trigger] LAST_DILATIONS@[k] as int,
            ) <= usize::MAX by {
                assert(LAST_DILATIONS@[k] == 1);
            }
        }
        let names = Naming::Outer(owned("last_convnext/"));
        let h = self.last_convnext.forward(tape, x, Some(mask), ROWS, t, &names);
        let h = tape.op2(Op::Conv { dilation: 1, groups: 1 }, h, self.proj_out);
        tape.op2(Op::Mul, h, mask)
    }

    /// Makes the vector field, and names what it computes.
    #[verifier::rlimit(30)]
    fn field(&self, tape: &mut Tape, i: StepRegs, t: usize, s: usize) -> (r: usize)
        requires
            old(tape).wf(),
            self.loaded(old(tape)),
            i.ready(old(tape), t, s),
            steps_fit(t as int),
        ensures
            final(tape).wf(),
            final(tape).extends(old(tape)),
            final(tape).seen@ == old(tape).seen@ + step_seen(i.inputs(old(tape)), t, s),
            final(tape).holds(
                r,
                vector_field(i.inputs(old(tape)), t, s),
                Shape::D3(ROWS, LATENT_DIM, t),
            ),
    {
        let ghost first = *tape;
        let ghost inputs = i.inputs(tape);
        let ghost here = setting(inputs, t, s);
        let ghost start = field_start(inputs, here);
        let e = self.set(tape, i, t, s);
        tape.record(owned("time_encoder/output"), e.time);
        let h = self.begin(tape, i, e.mask, t, Ghost(here));
        tape.record(owned("proj_in/Mul_output_0"), h);
        let ghost second = *tape;
        proof {
            self.lemma_stays(&first, &second);
        }
        let h = self.run_blocks(tape, h, e, Ghost(here));
        let ghost third = *tape;
        proof {
            self.lemma_stays(&second, &third);
        }
        let field = self.finish(tape, h, e.mask, t);
        tape.record(owned("proj_out/Mul_output_0"), field);
        proof {
            let s0 = first.seen@;
            let s1 = second.seen@;
            let s2 = third.seen@;
            let s3 = tape.seen@;
            let l0 = seq![("time_encoder/output"@, here.time), ("proj_in/Mul_output_0"@, start)];
            let l1 = blocks_seen(start, here, N_MAIN_BLOCKS as int);
            let l2 = last_seen(blocks_value(start, here, N_MAIN_BLOCKS as int), here.mask);
            let l3 = seq![("proj_out/Mul_output_0"@, vector_field(inputs, t, s))];
            assert(s1 == s0.push(l0[0]).push(l0[1]));
            assert(s2 == s1 + l1);
            assert(s3 == (s2 + l2).push(l3[0]));
            assert(s3 == s0 + (l0 + l1 + l2 + l3));
        }
        field
    }

    /// Moves the latent along the vector field.
    fn advance(&self, tape: &mut Tape, i: StepRegs, field: usize, t: usize, s: usize) -> (r: usize)
        requires
            old(tape).wf(),
            i.ready(old(tape), t, s),
            old(tape).has(field, Shape::D3(ROWS, LATENT_DIM, t)),
        ensures
            final(tape).wf(),
            final(tape).extends(old(tape)),
            final(tape).seen@ == old(tape).seen@,
            final(tape).holds(
                r,
                moved(i.inputs(old(tape)), old(tape).value(field)),
                Shape::D3(1, LATENT_DIM, t),
            ),
    {
        let with = tape.op1(Op::Narrow { dim: 0, start: 0, len: 1 }, field);
        let without = tape.op1(Op::Narrow { dim: 0, start: 1, len: 1 }, field);
        let with = tape.op1(Op::Times(GUIDANCE), with);
        let without = tape.op1(Op::Times(COUNTER_GUIDANCE), without);
        let h = tape.op2(Op::Sub, with, without);
        let h = tape.op2(Op::OverFirst, h, i.total_step);
        let h = tape.op2(Op::Add, i.noisy_latent, h);
        tape.op2(Op::Mul, h, i.latent_mask)
    }

    /// Takes one step from a latent of `[1, 144, t]`, with a text of `[1, 256, s]`, and
    /// names what it computes. Returns the vector field, of `[2, 144, t]`, and the
    /// moved latent, of `[1, 144, t]`.
    pub fn forward_diagnostic(&self, tape: &mut Tape, i: StepRegs, t: usize, s: usize) -> (r: (
        usize,
        usize,
    ))
        requires
            old(tape).wf(),
            self.loaded(old(tape)),
            i.ready(old(tape), t, s),
            steps_fit(t as int),
        ensures
            final(tape).wf(),
            final(tape).extends(old(tape)),
            final(tape).seen@ == old(tape).seen@ + step_seen(i.inputs(old(tape)), t, s),
            final(tape).holds(
                r.0,
                vector_field(i.inputs(old(tape)), t, s),
                Shape::D3(ROWS, LATENT_DIM, t),
            ),
            final(tape).holds(
                r.1,
                moved(i.inputs(old(tape)), vector_field(i.inputs(old(tape)), t, s)),
                Shape::D3(1, LATENT_DIM, t),
            ),
    {
        let field = self.field(tape, i, t, s);
        let out = self.advance(tape, i, field, t, s);
        (field, out)
    }

    /// Takes one step. Returns the vector field and the moved latent.
    pub fn forward_with_vfield(&self, tape: &mut Tape, i: StepRegs, t: usize, s: usize) -> (r: (
        usize,
        usize,
    ))
        requires
            old(tape).wf(),
            self.loaded(old(tape)),
            i.ready(old(tape), t, s),
            steps_fit(t as int),
        ensures
            final(tape).wf(),
            final(tape).extends(old(tape)),
            final(tape).seen@ == old(tape).seen@ + step_seen(i.inputs(old(tape)), t, s),
            final(tape).holds(
                r.0,
                vector_field(i.inputs(old(tape)), t, s),
                Shape::D3(ROWS, LATENT_DIM, t),
            ),
            final(tape).holds(
                r.1,
                moved(i.inputs(old(tape)), vector_field(i.inputs(old(tape)), t, s)),
                Shape::D3(1, LATENT_DIM, t),
            ),
    {
        self.forward_diagnostic(tape, i, t, s)
    }

    /// Takes one step. Returns the moved latent.
    pub fn forward(&self, tape: &mut Tape, i: StepRegs, t: usize, s: usize) -> (r: usize)
        requires
            old(tape).wf(),
            self.loaded(old(tape)),
            i.ready(old(tape), t, s),
            steps_fit(t as int),
        ensures
            final(tape).wf(),
            final(tape).extends(old(tape)),
            final(tape).seen@ == old(tape).seen@ + step_seen(i.inputs(old(tape)), t, s),
            final(tape).holds(
                r,
                moved(i.inputs(old(tape)), vector_field(i.inputs(old(tape)), t, s)),
                Shape::D3(1, LATENT_DIM, t),
            ),
    {
        let (_, out) = self.forward_diagnostic(tape, i, t, s);
        out
    }
}

/// A block stays loaded while a program grows.
proof fn lemma_block_stays(block: MainBlock, before: &Tape, after: &Tape, i: int)
    requires
        block.loaded(before, i),
        after.extends(before),
    ensures
        block.loaded(after, i),
{
}

} // verus!
