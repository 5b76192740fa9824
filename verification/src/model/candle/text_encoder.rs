//! The text encoder: from token ids and a style to an embedding of the text.

use vstd::prelude::*;

use crate::model::candle::attention::{
    attention_fits, encoder_seen, encoder_value, AttnEncoder, AttnSpec,
};
use crate::model::candle::cross::{attend_style, projected, style_attention, Projection};
use crate::model::candle::graph::{ap1, ap2, ap3, Expr, Op, Shape, Tape};
use crate::model::candle::layers::{
    embed, embedded, named, reach, stack_seen, stack_value, take_named, ConvNextSpec, Naming,
    NamingView, Stack,
};
use crate::strings::{decimal, join, join_number, owned};

verus! {

/// Ids that have an embedding.
pub const CHAR_VOCAB: usize = 8322;

/// Channels within the network.
pub const HIDDEN: usize = 256;

/// Channels of one of the two heads that attend to the style.
pub const STYLE_HEAD_DIM: usize = 128;

/// Rows of a style.
pub const STYLE_TOKENS: usize = 50;

/// The number of attention layers.
pub const N_ATTN_LAYERS: usize = 4;

/// The number of the first matrix of the layers that attend to the style.
pub const FIRST_MATRIX: usize = 3680;

/// How far apart the kernels of the blocks reach.
pub const DILATIONS: [usize; 6] = [1, 1, 2, 2, 4, 4];

/// Where the blocks, the attention layers and the style layers stand.
pub const CONVNEXT_ROOT: &'static str = "tts.ttl.text_encoder.convnext.convnext.";

pub const ATTN_ROOT: &'static str = "tts.ttl.text_encoder.attn_encoder";

pub const STYLE_ROOT: &'static str = "tts.ttl.speech_prompted_text_encoder.attention";

/// The name of what a block's depthwise convolution gives.
pub const DWCONV_NAME: &'static str = "/dwconv/Conv_output_0";

/// The sizes of the blocks.
pub open spec fn convnext() -> ConvNextSpec {
    ConvNextSpec { channels: 256, inner: 1024, kernel: 5, dwconv: ".dwconv", causal: false }
}

/// The sizes of the blocks.
fn convnext_sizes() -> (r: ConvNextSpec)
    ensures
        r == convnext(),
{
    ConvNextSpec { channels: 256, inner: 1024, kernel: 5, dwconv: ".dwconv", causal: false }
}

/// The sizes of the encoder.
pub open spec fn attention() -> AttnSpec {
    AttnSpec { hidden: 256, inner: 1024, heads: 4, head_dim: 64, sums: false }
}

/// The sizes of the encoder.
fn attention_sizes() -> (r: AttnSpec)
    ensures
        r == attention(),
{
    AttnSpec { hidden: 256, inner: 1024, heads: 4, head_dim: 64, sums: false }
}

// ---------------------------------------------------------------------------
// Attention to the style
// ---------------------------------------------------------------------------

/// A layer that attends to the style; there are two, numbered one and two.
#[derive(Debug)]
pub struct SpteCrossAttn {
    pub w_q: Projection,
    pub w_k: Projection,
    pub w_v: Projection,
    pub out_fc: Projection,
}

/// What such a layer computes on the way to its output.
pub struct SpteParts {
    pub q: Expr,
    pub k: Expr,
    pub v: Expr,
    pub out: Expr,
}

/// The number of matrix `slot` of layer `idx`: the matrices of a layer stand
/// together, in the order query, key, value, output.
pub open spec fn matrix_id(idx: int, slot: int) -> int {
    FIRST_MATRIX + 4 * (idx - 1) + slot
}

/// Where the biases of layer `idx` stand.
pub open spec fn style_prefix(idx: int) -> Seq<char> {
    STYLE_ROOT@ + decimal(idx)
}

/// One of the projections of layer `idx`.
pub open spec fn style_projected(idx: int, slot: int, name: &'static str, x: Expr) -> Expr {
    projected(matrix_id(idx, slot), style_prefix(idx), name, HIDDEN, HIDDEN, x)
}

/// What layer `idx` computes: the queries come from the text, the keys from the
/// learned keys and the values from the style. The result is masked.
pub open spec fn spte_parts(
    idx: int,
    text: Expr,
    keys: Expr,
    style: Expr,
    mask: Expr,
    b: usize,
    t: usize,
) -> SpteParts {
    let q = style_projected(idx, 0, ".W_query.linear.bias", text);
    let k = style_projected(idx, 1, ".W_key.linear.bias", keys);
    let v = style_projected(idx, 2, ".W_value.linear.bias", style);
    let heard = style_attention(q, k, v, b, t, STYLE_TOKENS, STYLE_HEAD_DIM, HIDDEN);
    let out = ap2(
        Op::Mul,
        style_projected(idx, 3, ".out_fc.linear.bias", heard),
        ap1(Op::SwapLast, mask),
    );
    SpteParts { q, k, v, out }
}

/// The names of what layer `idx` computes.
pub open spec fn spte_seen(idx: int, p: SpteParts) -> Seq<(Seq<char>, Expr)> {
    let at = "spte/attention"@ + decimal(idx);
    seq![
        (at + "/W_query"@, p.q),
        (at + "/W_key"@, p.k),
        (at + "/W_value"@, p.v),
        (at + "/out_fc"@, p.out),
    ]
}

impl SpteCrossAttn {
    /// Whether layer `idx` is loaded.
    pub open spec fn loaded(&self, tape: &Tape, idx: int) -> bool {
        let at = style_prefix(idx);
        &&& self.w_q.loaded(tape, matrix_id(idx, 0), at, ".W_query.linear.bias", HIDDEN, HIDDEN)
        &&& self.w_k.loaded(tape, matrix_id(idx, 1), at, ".W_key.linear.bias", HIDDEN, HIDDEN)
        &&& self.w_v.loaded(tape, matrix_id(idx, 2), at, ".W_value.linear.bias", HIDDEN, HIDDEN)
        &&& self.out_fc.loaded(tape, matrix_id(idx, 3), at, ".out_fc.linear.bias", HIDDEN, HIDDEN)
    }

    /// Loads layer `idx`.
    pub fn load(tape: &mut Tape, idx: usize) -> (r: SpteCrossAttn)
        requires
            old(tape).wf(),
            1 <= idx <= 2,
        ensures
            final(tape).wf(),
            final(tape).extends(old(tape)),
            final(tape).seen@ == old(tape).seen@,
            r.loaded(final(tape), idx as int),
    {
        let at = join_number(STYLE_ROOT, idx, "");
        assert(at@ == style_prefix(idx as int)) by {
            reveal_strlit("");
        }
        let at = at.as_str();
        let id: usize = FIRST_MATRIX + 4 * (idx - 1);
        let w_q = Projection::load(tape, id, at, ".W_query.linear.bias", HIDDEN, HIDDEN);
        let w_k = Projection::load(tape, id + 1, at, ".W_key.linear.bias", HIDDEN, HIDDEN);
        let w_v = Projection::load(tape, id + 2, at, ".W_value.linear.bias", HIDDEN, HIDDEN);
        let out_fc = Projection::load(tape, id + 3, at, ".out_fc.linear.bias", HIDDEN, HIDDEN);
        SpteCrossAttn { w_q, w_k, w_v, out_fc }
    }

    /// Attends from the text, of `[b, t, 256]`, to the style, of `[b, 50, 256]`, and
    /// names what it computes.
    pub fn forward(
        &self,
        tape: &mut Tape,
        text: usize,
        keys: usize,
        style: usize,
        mask: usize,
        b: usize,
        t: usize,
        idx: usize,
    ) -> (r: usize)
        requires
            old(tape).wf(),
            self.loaded(old(tape), idx as int),
            old(tape).has(text, Shape::D3(b, t, HIDDEN)),
            old(tape).has(keys, Shape::D3(b, STYLE_TOKENS, HIDDEN)),
            old(tape).has(style, Shape::D3(b, STYLE_TOKENS, HIDDEN)),
            old(tape).has(mask, Shape::D3(b, 1, t)),
        ensures
            final(tape).wf(),
            final(tape).extends(old(tape)),
            final(tape).seen@ == old(tape).seen@ + spte_seen(
                idx as int,
                spte_parts(
                    idx as int,
                    old(tape).value(text),
                    old(tape).value(keys),
                    old(tape).value(style),
                    old(tape).value(mask),
                    b,
                    t,
                ),
            ),
            final(tape).holds(
                r,
                spte_parts(
                    idx as int,
                    old(tape).value(text),
                    old(tape).value(keys),
                    old(tape).value(style),
                    old(tape).value(mask),
                    b,
                    t,
                ).out,
                Shape::D3(b, t, HIDDEN),
            ),
    {
        let ghost s0 = tape.seen@;
        let ghost i = idx as int;
        let ghost p = spte_parts(
            i,
            tape.value(text),
            tape.value(keys),
            tape.value(style),
            tape.value(mask),
            b,
            t,
        );
        let at = join_number("spte/attention", idx, "");
        assert(at@ == "spte/attention"@ + decimal(i)) by {
            reveal_strlit("");
        }
        let at = at.as_str();
        let ghost pre = style_prefix(i);
        let q = self.w_q.forward(
            tape,
            text,
            b,
            t,
            HIDDEN,
            HIDDEN,
            Ghost(matrix_id(i, 0)),
            Ghost(pre),
            Ghost(".W_query.linear.bias"),
        );
        let k = self.w_k.forward(
            tape,
            keys,
            b,
            STYLE_TOKENS,
            HIDDEN,
            HIDDEN,
            Ghost(matrix_id(i, 1)),
            Ghost(pre),
            Ghost(".W_key.linear.bias"),
        );
        let v = self.w_v.forward(
            tape,
            style,
            b,
            STYLE_TOKENS,
            HIDDEN,
            HIDDEN,
            Ghost(matrix_id(i, 2)),
            Ghost(pre),
            Ghost(".W_value.linear.bias"),
        );
        tape.record(join(at, "/W_query"), q);
        tape.record(join(at, "/W_key"), k);
        tape.record(join(at, "/W_value"), v);
        let heard = attend_style(tape, q, k, v, b, t, STYLE_TOKENS, STYLE_HEAD_DIM, HIDDEN);
        let out = self.out_fc.forward(
            tape,
            heard,
            b,
            t,
            HIDDEN,
            HIDDEN,
            Ghost(matrix_id(i, 3)),
            Ghost(pre),
            Ghost(".out_fc.linear.bias"),
        );
        let turned = tape.op1(Op::SwapLast, mask);
        let out = tape.op2(Op::Mul, out, turned);
        tape.record(join(at, "/out_fc"), out);
        proof {
            let l = spte_seen(i, p);
            let s1 = tape.seen@;
            assert(s1 == s0.push(l[0]).push(l[1]).push(l[2]).push(l[3]));
            assert(s1 == s0 + l);
        }
        out
    }
}

// ---------------------------------------------------------------------------
// The network
// ---------------------------------------------------------------------------

/// What the layers that attend to the style compute.
pub struct PromptedParts {
    pub attention1: SpteParts,
    pub sum_1: Expr,
    pub attention2: SpteParts,
    pub sum_2: Expr,
    pub norm: Expr,
    pub text_emb: Expr,
}

/// What the layers that attend to the style compute from a text of `[b, 256, t]`. Both
/// add their result to the same text; the second takes its queries from the first sum.
pub open spec fn prompted_parts(text: Expr, style: Expr, mask: Expr, b: usize, t: usize) ->
    PromptedParts {
    let text = ap1(Op::SwapLast, text);
    let keys = ap1(
        Op::Expand(Shape::D3(b, STYLE_TOKENS, HIDDEN)),
        named(
            "tts.ttl.style_encoder.style_token_layer.style_key",
            Shape::D3(1, STYLE_TOKENS, HIDDEN),
        ),
    );
    let attention1 = spte_parts(1, text, keys, style, mask, b, t);
    let sum_1 = ap2(Op::Add, text, attention1.out);
    let attention2 = spte_parts(2, sum_1, keys, style, mask, b, t);
    let sum_2 = ap2(Op::Add, text, attention2.out);
    let norm = ap3(
        Op::LayerNorm,
        sum_2,
        named("tts.ttl.speech_prompted_text_encoder.norm.norm.weight", Shape::D1(HIDDEN)),
        named("tts.ttl.speech_prompted_text_encoder.norm.norm.bias", Shape::D1(HIDDEN)),
    );
    let text_emb = ap2(Op::Mul, ap1(Op::SwapLast, norm), mask);
    PromptedParts { attention1, sum_1, attention2, sum_2, norm, text_emb }
}

/// The names of what the layers that attend to the style compute.
pub open spec fn prompted_seen(p: PromptedParts) -> Seq<(Seq<char>, Expr)> {
    let after = seq![
        ("spte/Add_1_output_0"@, p.sum_2),
        ("spte/norm/output"@, p.norm),
        ("spte/final_text_emb"@, p.text_emb),
    ];
    spte_seen(1, p.attention1) + seq![("spte/Add_output_0"@, p.sum_1)] + spte_seen(2, p.attention2)
        + after
}

/// The text encoder's weights.
pub struct CandleTextEncoder {
    pub char_embed: usize,
    pub convnext: Stack,
    pub attn_encoder: AttnEncoder,
    pub style_keys: usize,
    pub attention1: SpteCrossAttn,
    pub attention2: SpteCrossAttn,
    pub norm_weight: usize,
    pub norm_bias: usize,
}

/// What the text encoder computes on the way to its output.
pub struct TextParts {
    pub start: Expr,
    pub convnext: Expr,
    pub sum: Expr,
    pub proj_out: Expr,
    pub prompted: PromptedParts,
}

/// What the text encoder computes from `b` rows of `t` ids.
pub open spec fn text_parts(ids: Expr, style: Expr, mask: Expr, b: usize, t: usize) -> TextParts {
    let table = named(
        "tts.ttl.text_encoder.text_embedder.char_embedder.weight",
        Shape::D2(CHAR_VOCAB, HIDDEN),
    );
    let start = embedded(table, ids, mask, b, t, HIDDEN);
    let convnext = stack_value(
        convnext(),
        CONVNEXT_ROOT@,
        DILATIONS@,
        start,
        Some(mask),
        DILATIONS@.len() as int,
    );
    let encoded = encoder_value(
        attention(),
        ATTN_ROOT@,
        convnext,
        mask,
        b,
        t,
        N_ATTN_LAYERS as int,
    );
    let sum = ap2(Op::Add, convnext, ap2(Op::Mul, encoded, mask));
    let proj_out = ap2(Op::Mul, sum, mask);
    let prompted = prompted_parts(proj_out, style, mask, b, t);
    TextParts { start, convnext, sum, proj_out, prompted }
}

/// The names of what the text encoder computes.
pub open spec fn text_seen(p: TextParts, mask: Expr, b: usize, t: usize) -> Seq<
    (Seq<char>, Expr),
> {
    let blocks = stack_seen(
        convnext(),
        CONVNEXT_ROOT@,
        DILATIONS@,
        p.start,
        Some(mask),
        NamingView::Inner(DWCONV_NAME@),
        DILATIONS@.len() as int,
    );
    let layers = encoder_seen(
        attention(),
        ATTN_ROOT@,
        p.convnext,
        mask,
        b,
        t,
        N_ATTN_LAYERS as int,
    );
    let before = seq![("Add_output_0"@, p.sum), ("proj_out/Mul_output_0"@, p.proj_out)];
    blocks + layers + before + prompted_seen(p.prompted) + seq![
        ("text_emb"@, p.prompted.text_emb),
    ]
}

impl CandleTextEncoder {
    /// Whether all weights are loaded.
    pub open spec fn loaded(&self, tape: &Tape) -> bool {
        let table = Shape::D2(CHAR_VOCAB, HIDDEN);
        &&& tape.holds(
            self.char_embed,
            named("tts.ttl.text_encoder.text_embedder.char_embedder.weight", table),
            table,
        )
        &&& self.convnext.loaded(tape)
        &&& self.convnext.sizes == convnext()
        &&& self.convnext.root@ == CONVNEXT_ROOT@
        &&& self.convnext.dilations@ == DILATIONS@
        &&& self.attn_encoder.loaded(tape, N_ATTN_LAYERS as int)
        &&& self.attn_encoder.sizes == attention()
        &&& self.attn_encoder.prefix@ == ATTN_ROOT@
        &&& self.style_loaded(tape)
    }

    /// Whether the weights of the layers that attend to the style are loaded.
    pub open spec fn style_loaded(&self, tape: &Tape) -> bool {
        let keys = Shape::D3(1, STYLE_TOKENS, HIDDEN);
        let v = Shape::D1(HIDDEN);
        &&& tape.holds(
            self.style_keys,
            named("tts.ttl.style_encoder.style_token_layer.style_key", keys),
            keys,
        )
        &&& self.attention1.loaded(tape, 1)
        &&& self.attention2.loaded(tape, 2)
        &&& tape.holds(
            self.norm_weight,
            named("tts.ttl.speech_prompted_text_encoder.norm.norm.weight", v),
            v,
        )
        &&& tape.holds(
            self.norm_bias,
            named("tts.ttl.speech_prompted_text_encoder.norm.norm.bias", v),
            v,
        )
    }

    /// Loads the weights.
    pub fn load(tape: &mut Tape) -> (r: CandleTextEncoder)
        requires
            old(tape).wf(),
        ensures
            final(tape).wf(),
            final(tape).extends(old(tape)),
            final(tape).seen@ == old(tape).seen@,
            r.loaded(final(tape)),
    {
        let char_embed = take_named(
            tape,
            "tts.ttl.text_encoder.text_embedder.char_embedder.weight",
            Shape::D2(CHAR_VOCAB, HIDDEN),
        );
        let dilations: Vec<usize> = vec![1, 1, 2, 2, 4, 4];
        assert(dilations@ == DILATIONS@);
        let convnext = Stack::load(tape, convnext_sizes(), owned(CONVNEXT_ROOT), dilations);
        let attn_encoder = AttnEncoder::load(
            tape,
            attention_sizes(),
            owned(ATTN_ROOT),
            N_ATTN_LAYERS,
        );
        let style_keys = take_named(
            tape,
            "tts.ttl.style_encoder.style_token_layer.style_key",
            Shape::D3(1, STYLE_TOKENS, HIDDEN),
        );
        let attention1 = SpteCrossAttn::load(tape, 1);
        let attention2 = SpteCrossAttn::load(tape, 2);
        let norm_weight = take_named(
            tape,
            "tts.ttl.speech_prompted_text_encoder.norm.norm.weight",
            Shape::D1(HIDDEN),
        );
        let norm_bias = take_named(
            tape,
            "tts.ttl.speech_prompted_text_encoder.norm.norm.bias",
            Shape::D1(HIDDEN),
        );
        CandleTextEncoder {
            char_embed,
            convnext,
            attn_encoder,
            style_keys,
            attention1,
            attention2,
            norm_weight,
            norm_bias,
        }
    }

    /// Conditions a text of `[b, 256, t]` on the style, and names what it computes.
    #[verifier::rlimit(30)]
    fn prompt(
        &self,
        tape: &mut Tape,
        text_in: usize,
        style: usize,
        mask: usize,
        b: usize,
        t: usize,
    ) -> (r: usize)
        requires
            old(tape).wf(),
            self.style_loaded(old(tape)),
            old(tape).has(text_in, Shape::D3(b, HIDDEN, t)),
            old(tape).has(style, Shape::D3(b, STYLE_TOKENS, HIDDEN)),
            old(tape).has(mask, Shape::D3(b, 1, t)),
        ensures
            final(tape).wf(),
            final(tape).extends(old(tape)),
            final(tape).seen@ == old(tape).seen@ + prompted_seen(
                prompted_parts(
                    old(tape).value(text_in),
                    old(tape).value(style),
                    old(tape).value(mask),
                    b,
                    t,
                ),
            ),
            final(tape).holds(
                r,
                prompted_parts(
                    old(tape).value(text_in),
                    old(tape).value(style),
                    old(tape).value(mask),
                    b,
                    t,
                ).text_emb,
                Shape::D3(b, HIDDEN, t),
            ),
    {
        let ghost s0 = tape.seen@;
        let ghost p = prompted_parts(
            tape.value(text_in),
            tape.value(style),
            tape.value(mask),
            b,
            t,
        );
        let text = tape.op1(Op::SwapLast, text_in);
        let keys = tape.op1(Op::Expand(Shape::D3(b, STYLE_TOKENS, HIDDEN)), self.style_keys);
        let a1 = self.attention1.forward(tape, text, keys, style, mask, b, t, 1);
        let ghost s1 = tape.seen@;
        let sum_1 = tape.op2(Op::Add, text, a1);
        tape.record(owned("spte/Add_output_0"), sum_1);
        let ghost s2 = tape.seen@;
        let a2 = self.attention2.forward(tape, sum_1, keys, style, mask, b, t, 2);
        let ghost s3 = tape.seen@;
        let sum_2 = tape.op2(Op::Add, text, a2);
        tape.record(owned("spte/Add_1_output_0"), sum_2);
        let norm = tape.op3(Op::LayerNorm, sum_2, self.norm_weight, self.norm_bias);
        tape.record(owned("spte/norm/output"), norm);
        let h = tape.op1(Op::SwapLast, norm);
        let text_emb = tape.op2(Op::Mul, h, mask);
        tape.record(owned("spte/final_text_emb"), text_emb);
        proof {
            let s4 = tape.seen@;
            let mid = seq![("spte/Add_output_0"@, p.sum_1)];
            let after = seq![
                ("spte/Add_1_output_0"@, p.sum_2),
                ("spte/norm/output"@, p.norm),
                ("spte/final_text_emb"@, p.text_emb),
            ];
            assert(s2 == s1 + mid);
            assert(s4 == s3.push(after[0]).push(after[1]).push(after[2]));
            assert(s4 == s0 + prompted_seen(p));
        }
        text_emb
    }

    /// Encodes `b` rows of `t` ids. Returns the embedding, of `[b, 256, t]`.
    pub fn forward(
        &self,
        tape: &mut Tape,
        text_ids: usize,
        style_ttl: usize,
        text_mask: usize,
        b: usize,
        t: usize,
    ) -> (r: usize)
        requires
            old(tape).wf(),
            self.loaded(old(tape)),
            old(tape).has(text_ids, Shape::D2(b, t)),
            old(tape).has(style_ttl, Shape::D3(b, STYLE_TOKENS, HIDDEN)),
            old(tape).has(text_mask, Shape::D3(b, 1, t)),
            b * t <= usize::MAX,
            attention_fits(t as int),
        ensures
            final(tape).wf(),
            final(tape).extends(old(tape)),
            final(tape).seen@ == old(tape).seen@ + text_seen(
                text_parts(
                    old(tape).value(text_ids),
                    old(tape).value(style_ttl),
                    old(tape).value(text_mask),
                    b,
                    t,
                ),
                old(tape).value(text_mask),
                b,
                t,
            ),
            final(tape).holds(
                r,
                text_parts(
                    old(tape).value(text_ids),
                    old(tape).value(style_ttl),
                    old(tape).value(text_mask),
                    b,
                    t,
                ).prompted.text_emb,
                Shape::D3(b, HIDDEN, t),
            ),
    {
        self.forward_with_hooks(tape, text_ids, style_ttl, text_mask, b, t)
    }

    /// Encodes `b` rows of `t` ids, of `[b, t]`, with a style of `[b, 50, 256]` and a
    /// mask of `[b, 1, t]`, and names what it computes. Returns the embedding, of
    /// `[b, 256, t]`.
    #[verifier::rlimit(60)]
    pub fn forward_with_hooks(
        &self,
        tape: &mut Tape,
        text_ids: usize,
        style_ttl: usize,
        text_mask: usize,
        b: usize,
        t: usize,
    ) -> (r: usize)
        requires
            old(tape).wf(),
            self.loaded(old(tape)),
            old(tape).has(text_ids, Shape::D2(b, t)),
            old(tape).has(style_ttl, Shape::D3(b, STYLE_TOKENS, HIDDEN)),
            old(tape).has(text_mask, Shape::D3(b, 1, t)),
            b * t <= usize::MAX,
            attention_fits(t as int),
        ensures
            final(tape).wf(),
            final(tape).extends(old(tape)),
            final(tape).seen@ == old(tape).seen@ + text_seen(
                text_parts(
                    old(tape).value(text_ids),
                    old(tape).value(style_ttl),
                    old(tape).value(text_mask),
                    b,
                    t,
                ),
                old(tape).value(text_mask),
                b,
                t,
            ),
            final(tape).holds(
                r,
                text_parts(
                    old(tape).value(text_ids),
                    old(tape).value(style_ttl),
                    old(tape).value(text_mask),
                    b,
                    t,
                ).prompted.text_emb,
                Shape::D3(b, HIDDEN, t),
            ),
    {
        let ghost s0 = tape.seen@;
        let ghost vm = tape.value(text_mask);
        let ghost p = text_parts(tape.value(text_ids), tape.value(style_ttl), vm, b, t);
        assert(t + 20 <= usize::MAX) by (nonlinear_arith)
            requires
                2 * t * t + t <= usize::MAX,
                0 < t,
                usize::MAX >= 65535,
        ;
        let start = embed(tape, self.char_embed, text_ids, text_mask, CHAR_VOCAB, b, t, HIDDEN);
        assert(self.convnext.has_room(t as int)) by {
            assert forall|i: int| 0 <= i < DILATIONS@.len() implies t + reach(
                5,
                #[trigger] DILATIONS@[i] as int,
            ) <= usize::MAX by {
                assert(DILATIONS@[i] <= 4);
            }
        }
        let names = Naming::Inner(DWCONV_NAME);
        let convnext = self.convnext.forward(tape, start, Some(text_mask), b, t, &names);
        let ghost s1 = tape.seen@;
        let encoded = self.attn_encoder.forward(tape, convnext, text_mask, b, t);
        let ghost s2 = tape.seen@;
        let sum = tape.op2(Op::Add, convnext, encoded);
        tape.record(owned("Add_output_0"), sum);
        let proj_out = tape.op2(Op::Mul, sum, text_mask);
        tape.record(owned("proj_out/Mul_output_0"), proj_out);
        let ghost s3 = tape.seen@;
        let text_emb = self.prompt(tape, proj_out, style_ttl, text_mask, b, t);
        let ghost s4 = tape.seen@;
        tape.record(owned("text_emb"), text_emb);
        proof {
            let s5 = tape.seen@;
            let before = seq![
                ("Add_output_0"@, p.sum),
                ("proj_out/Mul_output_0"@, p.proj_out),
            ];
            let after = seq![("text_emb"@, p.prompted.text_emb)];
            assert(s3 == s2.push(before[0]).push(before[1]));
            assert(s3 == s2 + before);
            assert(s5 == s4 + after);
            assert(s5 == s0 + text_seen(p, vm, b, t));
        }
        text_emb
    }
}

} // verus!
