//! The vocoder: from the latent to samples.

use vstd::prelude::*;

use crate::model::candle::graph::{ap1, ap2, ap3, ap5, conv_len, Expr, Op, Shape, Tape};
use crate::model::candle::layers::{named, take_named, ConvNextSpec, Naming, NamingView, Stack};
use crate::model::candle::layers::{reach, stack_seen, stack_value};
use crate::strings::owned;

verus! {

/// Channels of the unfolded latent.
pub const INPUT_DIM: usize = 24;

/// Channels within the network.
pub const HIDDEN_DIM: usize = 512;

/// Channels between the two convolutions of the head.
pub const HEAD_DIM: usize = 2048;

/// Frames that are packed into one frame of the latent.
pub const CHUNK_COMPRESS_FACTOR: usize = 6;

/// Channels of the latent.
pub const LATENT_DIM: usize = 144;

/// Samples that one frame of the latent gives.
pub const SAMPLES_PER_FRAME: usize = 3072;

/// How far apart the kernels of the blocks reach.
pub const DILATIONS: [usize; 10] = [1, 2, 4, 1, 2, 4, 1, 1, 1, 1];

/// The sizes of the blocks. All padding is on the left: a sample depends on nothing
/// that comes after it.
pub open spec fn convnext() -> ConvNextSpec {
    ConvNextSpec { channels: 512, inner: 2048, kernel: 7, dwconv: ".dwconv.net", causal: true }
}

/// The sizes of the blocks.
fn convnext_sizes() -> (r: ConvNextSpec)
    ensures
        r == convnext(),
{
    ConvNextSpec { channels: 512, inner: 2048, kernel: 7, dwconv: ".dwconv.net", causal: true }
}

/// Where the blocks stand.
pub const CONVNEXT_ROOT: &'static str = "tts.ae.decoder.convnext.";

/// The vocoder's weights.
pub struct CandleVocoder {
    pub normalizer_scale: usize,
    pub latent_mean: usize,
    pub latent_std: usize,
    pub embed_weight: usize,
    pub embed_bias: usize,
    pub blocks: Stack,
    pub norm_mean: usize,
    pub norm_var: usize,
    pub norm_weight: usize,
    pub norm_bias: usize,
    pub prelu_alpha: usize,
    pub head1_weight: usize,
    pub head1_bias: usize,
    pub head2_weight: usize,
}

/// What the vocoder computes on the way to its output.
pub struct VocoderParts {
    pub unfolded: Expr,
    pub embed: Expr,
    pub blocks: Expr,
    pub norm: Expr,
    pub head1: Expr,
    pub act: Expr,
    pub head2: Expr,
    pub wav: Expr,
}

/// The latent, scaled back and with the packed frames taken apart: channel `c` of
/// frame `6 * i + j` is channel `6 * c + j` of packed frame `i`.
pub open spec fn unfolded(latent: Expr, b: usize, t: usize) -> Expr {
    let scaled = ap2(Op::OverScalar, latent, named("tts.ttl.normalizer.scale", Shape::D0));
    let apart = ap1(Op::Reshape(Shape::D4(b, INPUT_DIM, CHUNK_COMPRESS_FACTOR, t)), scaled);
    let long = ap1(
        Op::Reshape(Shape::D3(b, INPUT_DIM, (t * CHUNK_COMPRESS_FACTOR) as usize)),
        ap1(Op::SwapLast, apart),
    );
    let each = Shape::D3(1, INPUT_DIM, 1);
    ap2(
        Op::Add,
        ap2(Op::Mul, long, named("tts.ae.latent_std", each)),
        named("tts.ae.latent_mean", each),
    )
}

/// What the vocoder computes from a latent of `b` rows and `t` frames.
pub open spec fn vocoder_parts(latent: Expr, b: usize, t: usize) -> VocoderParts {
    let one = Op::Conv { dilation: 1, groups: 1 };
    let vector = Shape::D1(HIDDEN_DIM);
    let unfolded = unfolded(latent, b, t);
    let embed = ap3(
        one,
        ap1(Op::PadEdge { left: 6, right: 0 }, unfolded),
        named("onnx::Conv_1441", Shape::D3(HIDDEN_DIM, INPUT_DIM, 7)),
        named("onnx::Conv_1442", vector),
    );
    let blocks = stack_value(
        convnext(),
        CONVNEXT_ROOT@,
        DILATIONS@,
        embed,
        None,
        DILATIONS@.len() as int,
    );
    let norm = ap5(
        Op::BatchNorm,
        blocks,
        named("tts.ae.decoder.final_norm.norm.running_mean", vector),
        named("tts.ae.decoder.final_norm.norm.running_var", vector),
        named("tts.ae.decoder.final_norm.norm.weight", vector),
        named("tts.ae.decoder.final_norm.norm.bias", vector),
    );
    let head1 = ap3(
        one,
        ap1(Op::PadEdge { left: 2, right: 0 }, norm),
        named("tts.ae.decoder.head.layer1.net.weight", Shape::D3(HEAD_DIM, HIDDEN_DIM, 3)),
        named("tts.ae.decoder.head.layer1.net.bias", Shape::D1(HEAD_DIM)),
    );
    let act = ap2(Op::PRelu, head1, named("onnx::PRelu_1506", Shape::D2(1, 1)));
    let head2 = ap2(
        one,
        act,
        named("tts.ae.decoder.head.layer2.weight", Shape::D3(HIDDEN_DIM, HEAD_DIM, 1)),
    );
    let wav = ap1(
        Op::Reshape(Shape::D2(b, (t * SAMPLES_PER_FRAME) as usize)),
        ap1(Op::SwapLast, head2),
    );
    VocoderParts { unfolded, embed, blocks, norm, head1, act, head2, wav }
}

/// The names of what the vocoder computes.
pub open spec fn vocoder_seen(p: VocoderParts) -> Seq<(Seq<char>, Expr)> {
    let before = seq![
        ("pre_embed/after_unfold"@, p.unfolded),
        ("embed/net/Conv_output_0"@, p.embed),
    ];
    let blocks = stack_seen(
        convnext(),
        CONVNEXT_ROOT@,
        DILATIONS@,
        p.embed,
        None,
        NamingView::Inner("/dwconv/net/Conv_output_0"@),
        DILATIONS@.len() as int,
    );
    let after = seq![
        ("final_norm/BatchNormalization_output_0"@, p.norm),
        ("head/layer1/net/Conv_output_0"@, p.head1),
        ("head/act/PRelu_output_0"@, p.act),
        ("head/layer2/Conv_output_0"@, p.head2),
    ];
    before + blocks + after
}

impl CandleVocoder {
    /// Whether all weights are loaded.
    pub open spec fn loaded(&self, tape: &Tape) -> bool {
        let each = Shape::D3(1, INPUT_DIM, 1);
        let vector = Shape::D1(HIDDEN_DIM);
        let embed = Shape::D3(HIDDEN_DIM, INPUT_DIM, 7);
        let alpha = Shape::D2(1, 1);
        let head1 = Shape::D3(HEAD_DIM, HIDDEN_DIM, 3);
        let head1_bias = Shape::D1(HEAD_DIM);
        let head2 = Shape::D3(HIDDEN_DIM, HEAD_DIM, 1);
        &&& tape.holds(
            self.normalizer_scale,
            named("tts.ttl.normalizer.scale", Shape::D0),
            Shape::D0,
        )
        &&& tape.holds(self.latent_mean, named("tts.ae.latent_mean", each), each)
        &&& tape.holds(self.latent_std, named("tts.ae.latent_std", each), each)
        &&& tape.holds(self.embed_weight, named("onnx::Conv_1441", embed), embed)
        &&& tape.holds(self.embed_bias, named("onnx::Conv_1442", vector), vector)
        &&& self.blocks.loaded(tape)
        &&& self.blocks.sizes == convnext()
        &&& self.blocks.root@ == CONVNEXT_ROOT@
        &&& self.blocks.dilations@ == DILATIONS@
        &&& tape.holds(
            self.norm_mean,
            named("tts.ae.decoder.final_norm.norm.running_mean", vector),
            vector,
        )
        &&& tape.holds(
            self.norm_var,
            named("tts.ae.decoder.final_norm.norm.running_var", vector),
            vector,
        )
        &&& tape.holds(
            self.norm_weight,
            named("tts.ae.decoder.final_norm.norm.weight", vector),
            vector,
        )
        &&& tape.holds(
            self.norm_bias,
            named("tts.ae.decoder.final_norm.norm.bias", vector),
            vector,
        )
        &&& tape.holds(self.prelu_alpha, named("onnx::PRelu_1506", alpha), alpha)
        &&& tape.holds(
            self.head1_weight,
            named("tts.ae.decoder.head.layer1.net.weight", head1),
            head1,
        )
        &&& tape.holds(
            self.head1_bias,
            named("tts.ae.decoder.head.layer1.net.bias", head1_bias),
            head1_bias,
        )
        &&& tape.holds(
            self.head2_weight,
            named("tts.ae.decoder.head.layer2.weight", head2),
            head2,
        )
    }

    /// Loads the weights.
    pub fn load(tape: &mut Tape) -> (r: CandleVocoder)
        requires
            old(tape).wf(),
        ensures
            final(tape).wf(),
            final(tape).extends(old(tape)),
            final(tape).seen@ == old(tape).seen@,
            r.loaded(final(tape)),
    {
        let each = Shape::D3(1, INPUT_DIM, 1);
        let vector = Shape::D1(HIDDEN_DIM);
        let normalizer_scale = take_named(tape, "tts.ttl.normalizer.scale", Shape::D0);
        let latent_mean = take_named(tape, "tts.ae.latent_mean", each);
        let latent_std = take_named(tape, "tts.ae.latent_std", each);
        let embed_weight = take_named(
            tape,
            "onnx::Conv_1441",
            Shape::D3(HIDDEN_DIM, INPUT_DIM, 7),
        );
        let embed_bias = take_named(tape, "onnx::Conv_1442", vector);
        let dilations: Vec<usize> = vec![1, 2, 4, 1, 2, 4, 1, 1, 1, 1];
        assert(dilations@ == DILATIONS@);
        let blocks = Stack::load(tape, convnext_sizes(), owned(CONVNEXT_ROOT), dilations);
        let norm_mean = take_named(tape, "tts.ae.decoder.final_norm.norm.running_mean", vector);
        let norm_var = take_named(tape, "tts.ae.decoder.final_norm.norm.running_var", vector);
        let norm_weight = take_named(tape, "tts.ae.decoder.final_norm.norm.weight", vector);
        let norm_bias = take_named(tape, "tts.ae.decoder.final_norm.norm.bias", vector);
        let prelu_alpha = take_named(tape, "onnx::PRelu_1506", Shape::D2(1, 1));
        let head1_weight = take_named(
            tape,
            "tts.ae.decoder.head.layer1.net.weight",
            Shape::D3(HEAD_DIM, HIDDEN_DIM, 3),
        );
        let head1_bias = take_named(
            tape,
            "tts.ae.decoder.head.layer1.net.bias",
            Shape::D1(HEAD_DIM),
        );
        let head2_weight = take_named(
            tape,
            "tts.ae.decoder.head.layer2.weight",
            Shape::D3(HIDDEN_DIM, HEAD_DIM, 1),
        );
        CandleVocoder {
            normalizer_scale,
            latent_mean,
            latent_std,
            embed_weight,
            embed_bias,
            blocks,
            norm_mean,
            norm_var,
            norm_weight,
            norm_bias,
            prelu_alpha,
            head1_weight,
            head1_bias,
            head2_weight,
        }
    }

    /// Scales a latent back and takes its packed frames apart.
    fn unfold(&self, tape: &mut Tape, latent: usize, b: usize, t: usize) -> (r: usize)
        requires
            old(tape).wf(),
            self.loaded(old(tape)),
            old(tape).has(latent, Shape::D3(b, LATENT_DIM, t)),
            t > 0,
            t * CHUNK_COMPRESS_FACTOR <= usize::MAX,
        ensures
            final(tape).wf(),
            final(tape).extends(old(tape)),
            final(tape).seen@ == old(tape).seen@,
            final(tape).holds(
                r,
                unfolded(old(tape).value(latent), b, t),
                Shape::D3(b, INPUT_DIM, (t * CHUNK_COMPRESS_FACTOR) as usize),
            ),
    {
        let h = tape.op2(Op::OverScalar, latent, self.normalizer_scale);
        assert(b * 144 * t == b * 24 * 6 * t) by (nonlinear_arith);
        let h = tape.op1(
            Op::Reshape(Shape::D4(b, INPUT_DIM, CHUNK_COMPRESS_FACTOR, t)),
            h,
        );
        let h = tape.op1(Op::SwapLast, h);
        assert(b * 24 * t * 6 == b * 24 * (t * 6)) by (nonlinear_arith);
        let h = tape.op1(Op::Reshape(Shape::D3(b, INPUT_DIM, t * CHUNK_COMPRESS_FACTOR)), h);
        let h = tape.op2(Op::Mul, h, self.latent_std);
        tape.op2(Op::Add, h, self.latent_mean)
    }

    /// Applies the vocoder to a latent of `[b, 144, t]`. Returns the samples, of
    /// `[b, t * 3072]`.
    pub fn forward(&self, tape: &mut Tape, latent: usize, b: usize, t: usize) -> (r: usize)
        requires
            old(tape).wf(),
            self.loaded(old(tape)),
            old(tape).has(latent, Shape::D3(b, LATENT_DIM, t)),
            t > 0,
            t * SAMPLES_PER_FRAME <= usize::MAX,
        ensures
            final(tape).wf(),
            final(tape).extends(old(tape)),
            final(tape).seen@ == old(tape).seen@ + vocoder_seen(
                vocoder_parts(old(tape).value(latent), b, t),
            ),
            final(tape).holds(
                r,
                vocoder_parts(old(tape).value(latent), b, t).wav,
                Shape::D2(b, (t * SAMPLES_PER_FRAME) as usize),
            ),
    {
        self.forward_with_hooks(tape, latent, b, t)
    }

    /// Applies the vocoder to a latent of `[b, 144, t]`, and names what it computes.
    /// Returns the samples, of `[b, t * 3072]`.
    pub fn forward_with_hooks(&self, tape: &mut Tape, latent: usize, b: usize, t: usize) -> (r:
        usize)
        requires
            old(tape).wf(),
            self.loaded(old(tape)),
            old(tape).has(latent, Shape::D3(b, LATENT_DIM, t)),
            t > 0,
            t * SAMPLES_PER_FRAME <= usize::MAX,
        ensures
            final(tape).wf(),
            final(tape).extends(old(tape)),
            final(tape).seen@ == old(tape).seen@ + vocoder_seen(
                vocoder_parts(old(tape).value(latent), b, t),
            ),
            final(tape).holds(
                r,
                vocoder_parts(old(tape).value(latent), b, t).wav,
                Shape::D2(b, (t * SAMPLES_PER_FRAME) as usize),
            ),
    {
        let ghost s0 = tape.seen@;
        let ghost p = vocoder_parts(tape.value(latent), b, t);
        let frames: usize = t * CHUNK_COMPRESS_FACTOR;
        let one = Op::Conv { dilation: 1, groups: 1 };
        let z = self.unfold(tape, latent, b, t);
        tape.record(owned("pre_embed/after_unfold"), z);
        let h = tape.op1(Op::PadEdge { left: 6, right: 0 }, z);
        assert(INPUT_DIM * 1 == INPUT_DIM && HIDDEN_DIM * 1 == HIDDEN_DIM && HEAD_DIM * 1 == HEAD_DIM
            && HIDDEN_DIM % 1 == 0 && HEAD_DIM % 1 == 0) by (nonlinear_arith);
        assert(tape.shape(h) == Shape::D3(b, INPUT_DIM, (frames + 6) as usize));
        assert(conv_len(frames + 6, 7, 1) == frames);
        assert(tape.shape(self.embed_weight) == Shape::D3(HIDDEN_DIM, INPUT_DIM, 7));
        let embed = tape.op3(one, h, self.embed_weight, self.embed_bias);
        tape.record(owned("embed/net/Conv_output_0"), embed);
        let ghost s1 = tape.seen@;
        assert(s1 == s0.push(("pre_embed/after_unfold"@, p.unfolded)).push(
            ("embed/net/Conv_output_0"@, p.embed),
        ));
        assert(self.blocks.has_room(frames as int)) by {
            assert forall|i: int| 0 <= i < DILATIONS@.len() implies frames + reach(
                7,
                #[trigger] DILATIONS@[i] as int,
            ) <= usize::MAX by {
                assert(DILATIONS@[i] <= 4);
            }
        }
        let names = Naming::Inner("/dwconv/net/Conv_output_0");
        let blocks = self.blocks.forward(tape, embed, None, b, frames, &names);
        let ghost s2 = tape.seen@;
        let norm = tape.batch_norm(
            blocks,
            self.norm_mean,
            self.norm_var,
            self.norm_weight,
            self.norm_bias,
        );
        tape.record(owned("final_norm/BatchNormalization_output_0"), norm);
        let h = tape.op1(Op::PadEdge { left: 2, right: 0 }, norm);
        assert(tape.shape(h) == Shape::D3(b, HIDDEN_DIM, (frames + 2) as usize));
        assert(conv_len(frames + 2, 3, 1) == frames);
        assert(tape.shape(self.head1_weight) == Shape::D3(HEAD_DIM, HIDDEN_DIM, 3));
        assert(tape.shape(self.head1_bias) == Shape::D1(HEAD_DIM));
        let head1 = tape.op3(one, h, self.head1_weight, self.head1_bias);
        tape.record(owned("head/layer1/net/Conv_output_0"), head1);
        let act = tape.op2(Op::PRelu, head1, self.prelu_alpha);
        tape.record(owned("head/act/PRelu_output_0"), act);
        assert(tape.shape(act) == Shape::D3(b, HEAD_DIM, frames));
        assert(conv_len(frames as int, 1, 1) == frames);
        assert(tape.shape(self.head2_weight) == Shape::D3(HIDDEN_DIM, HEAD_DIM, 1));
        let head2 = tape.op2(one, act, self.head2_weight);
        tape.record(owned("head/layer2/Conv_output_0"), head2);
        let h = tape.op1(Op::SwapLast, head2);
        assert(b * (t * 6) * 512 == b * (t * 3072)) by (nonlinear_arith);
        let wav = tape.op1(Op::Reshape(Shape::D2(b, t * SAMPLES_PER_FRAME)), h);
        proof {
            let s3 = tape.seen@;
            let list = vocoder_seen(p);
            assert(s3 == s0 + list);
        }
        wav
    }
}

/// The vocoder turns each frame of the latent into the same number of samples: as
/// many as the frames packed into it times the channels of its output.
pub proof fn law_samples_per_frame()
    ensures
        SAMPLES_PER_FRAME == CHUNK_COMPRESS_FACTOR * HIDDEN_DIM,
        LATENT_DIM == INPUT_DIM * CHUNK_COMPRESS_FACTOR,
{
}

} // verus!
