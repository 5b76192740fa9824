//! The duration predictor: from token ids and a style to seconds.

use vstd::prelude::*;

use crate::model::candle::attention::{
    attention_fits, encoder_seen, encoder_value, AttnEncoder, AttnSpec,
};
use crate::model::candle::graph::{ap1, ap2, ap3, Expr, Op, Shape, Tape};
use crate::model::candle::layers::{
    embed, embedded, named, reach, stack_seen, stack_value, take_named, ConvNextSpec, Naming,
    NamingView, Stack,
};
use crate::strings::owned;

verus! {

/// Ids that have an embedding.
pub const CHAR_VOCAB: usize = 8322;

/// Channels within the network.
pub const HIDDEN_DIM: usize = 64;

/// Rows and columns of a style, and their product.
pub const STYLE_ROWS: usize = 8;

pub const STYLE_COLUMNS: usize = 16;

pub const STYLE_FLAT_DIM: usize = 128;

/// Width of the predictor's input and of its middle.
pub const PREDICTOR_IN_DIM: usize = 192;

pub const PREDICTOR_HDIM: usize = 128;

/// The number of attention layers.
pub const N_ATTN_LAYERS: usize = 2;

/// How far apart the kernels of the blocks reach.
pub const DILATIONS: [usize; 6] = [1, 1, 1, 1, 1, 1];

/// Where the blocks and the attention layers stand.
pub const CONVNEXT_ROOT: &'static str = "tts.dp.sentence_encoder.convnext.convnext.";

pub const ATTN_ROOT: &'static str = "tts.dp.sentence_encoder.attn_encoder";

/// The name of what a block's depthwise convolution gives.
pub const DWCONV_NAME: &'static str = "/dwconv/Conv_output_0";

/// The sizes of the blocks.
pub open spec fn convnext() -> ConvNextSpec {
    ConvNextSpec { channels: 64, inner: 256, kernel: 5, dwconv: ".dwconv", causal: false }
}

/// The sizes of the blocks.
fn convnext_sizes() -> (r: ConvNextSpec)
    ensures
        r == convnext(),
{
    ConvNextSpec { channels: 64, inner: 256, kernel: 5, dwconv: ".dwconv", causal: false }
}

/// The sizes of the encoder.
pub open spec fn attention() -> AttnSpec {
    AttnSpec { hidden: 64, inner: 256, heads: 2, head_dim: 32, sums: true }
}

/// The sizes of the encoder.
fn attention_sizes() -> (r: AttnSpec)
    ensures
        r == attention(),
{
    AttnSpec { hidden: 64, inner: 256, heads: 2, head_dim: 32, sums: true }
}

/// The duration predictor's weights.
pub struct CandleDurationPredictor {
    pub char_embed: usize,
    pub sentence_token: usize,
    pub convnext: Stack,
    pub attn_encoder: AttnEncoder,
    pub proj_out: usize,
    pub linear0_weight: usize,
    pub linear0_bias: usize,
    pub linear1_weight: usize,
    pub linear1_bias: usize,
    pub prelu_alpha: usize,
}

/// What the duration predictor computes on the way to its output.
pub struct DurationParts {
    pub mask: Expr,
    pub start: Expr,
    pub convnext: Expr,
    pub sum: Expr,
    pub predicted: PredictedParts,
}

/// What is computed from the encoded sentence.
pub struct PredictedParts {
    pub proj_out: Expr,
    pub layer0: Expr,
    pub act: Expr,
    pub layer1: Expr,
    pub duration: Expr,
}

/// What is computed from the encoded sentence and the style: the first step of the
/// sentence stands for all of it.
pub open spec fn predicted_parts(sum: Expr, style: Expr, b: usize) -> PredictedParts {
    let proj_out = ap2(
        Op::Conv { dilation: 1, groups: 1 },
        ap1(Op::Narrow { dim: 2, start: 0, len: 1 }, sum),
        named(
            "tts.dp.sentence_encoder.proj_out.net.weight",
            Shape::D3(HIDDEN_DIM, HIDDEN_DIM, 1),
        ),
    );
    let combined = ap2(
        Op::Cat { dim: 1 },
        ap1(Op::Reshape(Shape::D2(b, HIDDEN_DIM)), proj_out),
        ap1(Op::Reshape(Shape::D2(b, STYLE_FLAT_DIM)), style),
    );
    let layer0 = ap3(
        Op::Linear,
        combined,
        named("tts.dp.predictor.layers.0.weight", Shape::D2(PREDICTOR_HDIM, PREDICTOR_IN_DIM)),
        named("tts.dp.predictor.layers.0.bias", Shape::D1(PREDICTOR_HDIM)),
    );
    let act = ap2(Op::PRelu, layer0, named("tts.dp.predictor.activation.weight", Shape::D1(1)));
    let layer1 = ap3(
        Op::Linear,
        act,
        named("tts.dp.predictor.layers.1.weight", Shape::D2(1, PREDICTOR_HDIM)),
        named("tts.dp.predictor.layers.1.bias", Shape::D1(1)),
    );
    let duration = ap1(Op::Reshape(Shape::D1(b)), ap1(Op::Exp, layer1));
    PredictedParts { proj_out, layer0, act, layer1, duration }
}

/// The names of what is computed from the encoded sentence.
pub open spec fn predicted_seen(p: PredictedParts) -> Seq<(Seq<char>, Expr)> {
    seq![
        ("proj_out/net/Conv_output_0"@, p.proj_out),
        ("layers.0/Gemm_output_0"@, p.layer0),
        ("activation/PRelu_output_0"@, p.act),
        ("layers.1/Gemm_output_0"@, p.layer1),
        ("duration"@, p.duration),
    ]
}

/// The mask with a valid step in front, for the sentence token.
pub open spec fn longer_mask(mask: Expr, b: usize) -> Expr {
    ap2(Op::Cat { dim: 2 }, Expr::Ones(Shape::D3(b, 1, 1)), mask)
}

/// The embedded text with the sentence token in front, masked.
pub open spec fn sentence(ids: Expr, mask: Expr, b: usize, t: usize) -> Expr {
    let table = named(
        "tts.dp.sentence_encoder.text_embedder.char_embedder.weight",
        Shape::D2(CHAR_VOCAB, HIDDEN_DIM),
    );
    let token = named("tts.dp.sentence_encoder.sentence_token", Shape::D3(1, HIDDEN_DIM, 1));
    let mixed = ap2(
        Op::Cat { dim: 2 },
        ap1(Op::Expand(Shape::D3(b, HIDDEN_DIM, 1)), token),
        embedded(table, ids, mask, b, t, HIDDEN_DIM),
    );
    ap2(Op::Mul, mixed, longer_mask(mask, b))
}

/// What the duration predictor computes from `b` rows of `t` ids.
pub open spec fn duration_parts(ids: Expr, style: Expr, text_mask: Expr, b: usize, t: usize) ->
    DurationParts {
    let n = (t + 1) as usize;
    let mask = longer_mask(text_mask, b);
    let start = sentence(ids, text_mask, b, t);
    let convnext = stack_value(
        convnext(),
        CONVNEXT_ROOT@,
        DILATIONS@,
        start,
        Some(mask),
        DILATIONS@.len() as int,
    );
    let encoded = encoder_value(
        attention(),
        ATTN_ROOT@,
        convnext,
        mask,
        b,
        n,
        N_ATTN_LAYERS as int,
    );
    let sum = ap2(Op::Add, convnext, ap2(Op::Mul, encoded, mask));
    DurationParts { mask, start, convnext, sum, predicted: predicted_parts(sum, style, b) }
}

/// The names of what the duration predictor computes.
pub open spec fn duration_seen(p: DurationParts, b: usize, t: usize) -> Seq<(Seq<char>, Expr)> {
    let n = (t + 1) as usize;
    let blocks = stack_seen(
        convnext(),
        CONVNEXT_ROOT@,
        DILATIONS@,
        p.start,
        Some(p.mask),
        NamingView::Inner(DWCONV_NAME@),
        DILATIONS@.len() as int,
    );
    let layers = encoder_seen(
        attention(),
        ATTN_ROOT@,
        p.convnext,
        p.mask,
        b,
        n,
        N_ATTN_LAYERS as int,
    );
    blocks + layers + seq![("Add_output_0"@, p.sum)] + predicted_seen(p.predicted)
}

impl CandleDurationPredictor {
    /// Whether all weights are loaded.
    pub open spec fn loaded(&self, tape: &Tape) -> bool {
        let table = Shape::D2(CHAR_VOCAB, HIDDEN_DIM);
        let token = Shape::D3(1, HIDDEN_DIM, 1);
        &&& tape.holds(
            self.char_embed,
            named("tts.dp.sentence_encoder.text_embedder.char_embedder.weight", table),
            table,
        )
        &&& tape.holds(
            self.sentence_token,
            named("tts.dp.sentence_encoder.sentence_token", token),
            token,
        )
        &&& self.convnext.loaded(tape)
        &&& self.convnext.sizes == convnext()
        &&& self.convnext.root@ == CONVNEXT_ROOT@
        &&& self.convnext.dilations@ == DILATIONS@
        &&& self.attn_encoder.loaded(tape, N_ATTN_LAYERS as int)
        &&& self.attn_encoder.sizes == attention()
        &&& self.attn_encoder.prefix@ == ATTN_ROOT@
        &&& self.predictor_loaded(tape)
    }

    /// Whether the weights of the predictor are loaded.
    pub open spec fn predictor_loaded(&self, tape: &Tape) -> bool {
        let proj = Shape::D3(HIDDEN_DIM, HIDDEN_DIM, 1);
        let w0 = Shape::D2(PREDICTOR_HDIM, PREDICTOR_IN_DIM);
        let b0 = Shape::D1(PREDICTOR_HDIM);
        let w1 = Shape::D2(1, PREDICTOR_HDIM);
        let single = Shape::D1(1);
        &&& tape.holds(
            self.proj_out,
            named("tts.dp.sentence_encoder.proj_out.net.weight", proj),
            proj,
        )
        &&& tape.holds(self.linear0_weight, named("tts.dp.predictor.layers.0.weight", w0), w0)
        &&& tape.holds(self.linear0_bias, named("tts.dp.predictor.layers.0.bias", b0), b0)
        &&& tape.holds(self.linear1_weight, named("tts.dp.predictor.layers.1.weight", w1), w1)
        &&& tape.holds(self.linear1_bias, named("tts.dp.predictor.layers.1.bias", single), single)
        &&& tape.holds(
            self.prelu_alpha,
            named("tts.dp.predictor.activation.weight", single),
            single,
        )
    }

    /// Loads the weights.
    pub fn load(tape: &mut Tape) -> (r: CandleDurationPredictor)
        requires
            old(tape).wf(),
        ensures
            final(tape).wf(),
            final(tape).extends(old(tape)),
            final(tape).seen@ == old(tape).seen@,
            r.loaded(final(tape)),
    {
        let char_embed = take_named(
            tape,
            "tts.dp.sentence_encoder.text_embedder.char_embedder.weight",
            Shape::D2(CHAR_VOCAB, HIDDEN_DIM),
        );
        let sentence_token = take_named(
            tape,
            "tts.dp.sentence_encoder.sentence_token",
            Shape::D3(1, HIDDEN_DIM, 1),
        );
        let dilations: Vec<usize> = vec![1, 1, 1, 1, 1, 1];
        assert(dilations@ == DILATIONS@);
        let convnext = Stack::load(tape, convnext_sizes(), owned(CONVNEXT_ROOT), dilations);
        let attn_encoder = AttnEncoder::load(
            tape,
            attention_sizes(),
            owned(ATTN_ROOT),
            N_ATTN_LAYERS,
        );
        let proj_out = take_named(
            tape,
            "tts.dp.sentence_encoder.proj_out.net.weight",
            Shape::D3(HIDDEN_DIM, HIDDEN_DIM, 1),
        );
        let linear0_weight = take_named(
            tape,
            "tts.dp.predictor.layers.0.weight",
            Shape::D2(PREDICTOR_HDIM, PREDICTOR_IN_DIM),
        );
        let linear0_bias = take_named(
            tape,
            "tts.dp.predictor.layers.0.bias",
            Shape::D1(PREDICTOR_HDIM),
        );
        let linear1_weight = take_named(
            tape,
            "tts.dp.predictor.layers.1.weight",
            Shape::D2(1, PREDICTOR_HDIM),
        );
        let linear1_bias = take_named(tape, "tts.dp.predictor.layers.1.bias", Shape::D1(1));
        let prelu_alpha = take_named(tape, "tts.dp.predictor.activation.weight", Shape::D1(1));
        CandleDurationPredictor {
            char_embed,
            sentence_token,
            convnext,
            attn_encoder,
            proj_out,
            linear0_weight,
            linear0_bias,
            linear1_weight,
            linear1_bias,
            prelu_alpha,
        }
    }

    /// Makes the longer mask and the sentence.
    fn begin(&self, tape: &mut Tape, ids: usize, text_mask: usize, b: usize, t: usize) -> (r: (
        usize,
        usize,
    ))
        requires
            old(tape).wf(),
            self.loaded(old(tape)),
            old(tape).has(ids, Shape::D2(b, t)),
            old(tape).has(text_mask, Shape::D3(b, 1, t)),
            b * t <= usize::MAX,
            t < usize::MAX,
        ensures
            final(tape).wf(),
            final(tape).extends(old(tape)),
            final(tape).seen@ == old(tape).seen@,
            final(tape).holds(
                r.0,
                longer_mask(old(tape).value(text_mask), b),
                Shape::D3(b, 1, (t + 1) as usize),
            ),
            final(tape).holds(
                r.1,
                sentence(old(tape).value(ids), old(tape).value(text_mask), b, t),
                Shape::D3(b, HIDDEN_DIM, (t + 1) as usize),
            ),
    {
        let text = embed(tape, self.char_embed, ids, text_mask, CHAR_VOCAB, b, t, HIDDEN_DIM);
        let token = tape.op1(Op::Expand(Shape::D3(b, HIDDEN_DIM, 1)), self.sentence_token);
        let mixed = tape.op2(Op::Cat { dim: 2 }, token, text);
        let ones = tape.ones(Shape::D3(b, 1, 1));
        let mask = tape.op2(Op::Cat { dim: 2 }, ones, text_mask);
        let start = tape.op2(Op::Mul, mixed, mask);
        (mask, start)
    }

    /// Predicts the duration from an encoded sentence of `[b, 64, n]` and a style, and
    /// names what it computes.
    fn predict(&self, tape: &mut Tape, sum: usize, style_dp: usize, b: usize, n: usize) -> (r: usize)
        requires
            old(tape).wf(),
            self.predictor_loaded(old(tape)),
            old(tape).has(sum, Shape::D3(b, HIDDEN_DIM, n)),
            old(tape).has(style_dp, Shape::D3(b, STYLE_ROWS, STYLE_COLUMNS)),
            n > 0,
        ensures
            final(tape).wf(),
            final(tape).extends(old(tape)),
            final(tape).seen@ == old(tape).seen@ + predicted_seen(
                predicted_parts(old(tape).value(sum), old(tape).value(style_dp), b),
            ),
            final(tape).holds(
                r,
                predicted_parts(old(tape).value(sum), old(tape).value(style_dp), b).duration,
                Shape::D1(b),
            ),
    {
        let ghost s0 = tape.seen@;
        let ghost p = predicted_parts(tape.value(sum), tape.value(style_dp), b);
        let h = tape.op1(Op::Narrow { dim: 2, start: 0, len: 1 }, sum);
        assert(tape.shape(h) == Shape::D3(b, HIDDEN_DIM, 1));
        assert(tape.shape(self.proj_out) == Shape::D3(HIDDEN_DIM, HIDDEN_DIM, 1));
        assert(HIDDEN_DIM * 1 == HIDDEN_DIM && HIDDEN_DIM % 1 == 0) by (nonlinear_arith);
        let proj_out = tape.op2(Op::Conv { dilation: 1, groups: 1 }, h, self.proj_out);
        tape.record(owned("proj_out/net/Conv_output_0"), proj_out);
        let sentence = tape.op1(Op::Reshape(Shape::D2(b, HIDDEN_DIM)), proj_out);
        assert(b * 8 * 16 == b * 128) by (nonlinear_arith);
        let style = tape.op1(Op::Reshape(Shape::D2(b, STYLE_FLAT_DIM)), style_dp);
        let combined = tape.op2(Op::Cat { dim: 1 }, sentence, style);
        let layer0 = tape.op3(Op::Linear, combined, self.linear0_weight, self.linear0_bias);
        tape.record(owned("layers.0/Gemm_output_0"), layer0);
        let act = tape.op2(Op::PRelu, layer0, self.prelu_alpha);
        tape.record(owned("activation/PRelu_output_0"), act);
        let layer1 = tape.op3(Op::Linear, act, self.linear1_weight, self.linear1_bias);
        tape.record(owned("layers.1/Gemm_output_0"), layer1);
        let h = tape.op1(Op::Exp, layer1);
        let duration = tape.op1(Op::Reshape(Shape::D1(b)), h);
        tape.record(owned("duration"), duration);
        proof {
            let s1 = tape.seen@;
            let l = predicted_seen(p);
            assert(s1 == s0.push(l[0]).push(l[1]).push(l[2]).push(l[3]).push(l[4]));
            assert(s1 == s0 + l);
        }
        duration
    }

    /// Predicts the duration of `b` rows of `t` ids. Returns the seconds, of `[b]`.
    pub fn forward(
        &self,
        tape: &mut Tape,
        text_ids: usize,
        style_dp: usize,
        text_mask: usize,
        b: usize,
        t: usize,
    ) -> (r: usize)
        requires
            old(tape).wf(),
            self.loaded(old(tape)),
            old(tape).has(text_ids, Shape::D2(b, t)),
            old(tape).has(style_dp, Shape::D3(b, STYLE_ROWS, STYLE_COLUMNS)),
            old(tape).has(text_mask, Shape::D3(b, 1, t)),
            b * t <= usize::MAX,
            attention_fits(t + 1),
        ensures
            final(tape).wf(),
            final(tape).extends(old(tape)),
            final(tape).seen@ == old(tape).seen@ + duration_seen(
                duration_parts(
                    old(tape).value(text_ids),
                    old(tape).value(style_dp),
                    old(tape).value(text_mask),
                    b,
                    t,
                ),
                b,
                t,
            ),
            final(tape).holds(
                r,
                duration_parts(
                    old(tape).value(text_ids),
                    old(tape).value(style_dp),
                    old(tape).value(text_mask),
                    b,
                    t,
                ).predicted.duration,
                Shape::D1(b),
            ),
    {
        self.forward_with_hooks(tape, text_ids, style_dp, text_mask, b, t)
    }

    /// Predicts the duration of `b` rows of `t` ids, of `[b, t]`, with a style of
    /// `[b, 8, 16]` and a mask of `[b, 1, t]`, and names what it computes. Returns the
    /// seconds, of `[b]`.
    #[verifier::rlimit(60)]
    pub fn forward_with_hooks(
        &self,
        tape: &mut Tape,
        text_ids: usize,
        style_dp: usize,
        text_mask: usize,
        b: usize,
        t: usize,
    ) -> (r: usize)
        requires
            old(tape).wf(),
            self.loaded(old(tape)),
            old(tape).has(text_ids, Shape::D2(b, t)),
            old(tape).has(style_dp, Shape::D3(b, STYLE_ROWS, STYLE_COLUMNS)),
            old(tape).has(text_mask, Shape::D3(b, 1, t)),
            b * t <= usize::MAX,
            attention_fits(t + 1),
        ensures
            final(tape).wf(),
            final(tape).extends(old(tape)),
            final(tape).seen@ == old(tape).seen@ + duration_seen(
                duration_parts(
                    old(tape).value(text_ids),
                    old(tape).value(style_dp),
                    old(tape).value(text_mask),
                    b,
                    t,
                ),
                b,
                t,
            ),
            final(tape).holds(
                r,
                duration_parts(
                    old(tape).value(text_ids),
                    old(tape).value(style_dp),
                    old(tape).value(text_mask),
                    b,
                    t,
                ).predicted.duration,
                Shape::D1(b),
            ),
    {
        let ghost s0 = tape.seen@;
        let ghost p = duration_parts(
            tape.value(text_ids),
            tape.value(style_dp),
            tape.value(text_mask),
            b,
            t,
        );
        assert(t + 20 <= usize::MAX) by (nonlinear_arith)
            requires
                2 * (t + 1) * (t + 1) + (t + 1) <= usize::MAX,
                usize::MAX >= 65535,
        ;
        let n: usize = t + 1;
        let (mask, start) = self.begin(tape, text_ids, text_mask, b, t);
        assert(self.convnext.has_room(n as int)) by {
            assert forall|i: int| 0 <= i < DILATIONS@.len() implies n + reach(
                5,
                #[trigger] DILATIONS@[i] as int,
            ) <= usize::MAX by {
                assert(DILATIONS@[i] == 1);
            }
        }
        let names = Naming::Inner(DWCONV_NAME);
        let convnext = self.convnext.forward(tape, start, Some(mask), b, n, &names);
        let ghost s1 = tape.seen@;
        let encoded = self.attn_encoder.forward(tape, convnext, mask, b, n);
        let ghost s2 = tape.seen@;
        let sum = tape.op2(Op::Add, convnext, encoded);
        tape.record(owned("Add_output_0"), sum);
        let ghost s3 = tape.seen@;
        let duration = self.predict(tape, sum, style_dp, b, n);
        proof {
            let s4 = tape.seen@;
            let mid = seq![("Add_output_0"@, p.sum)];
            assert(s3 == s2 + mid);
            assert(s4 == s0 + duration_seen(p, b, t));
        }
        duration
    }
}

} // verus!
