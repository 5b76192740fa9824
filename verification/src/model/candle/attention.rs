//! Self-attention with relative positions, and the encoder built from it.

use vstd::prelude::*;

use crate::model::candle::graph::{ap1, ap2, Expr, Op, Shape, Tape};
use crate::model::candle::layers::{channel_norm, pointwise, take_weight, weight, Pair};
use crate::strings::{decimal, join, join_number};

verus! {

/// How many steps apart two positions can be and still have an embedding of their
/// own.
pub const WINDOW: usize = 4;

/// The number of relative positions that have an embedding.
pub const N_RELATIVE: usize = 9;

/// The sizes of an encoder.
#[derive(Debug, Clone, Copy, PartialEq, Eq, Structural)]
pub struct AttnSpec {
    /// Channels of the input and the output.
    pub hidden: usize,
    /// Channels between the two convolutions of a feed-forward layer.
    pub inner: usize,
    /// The channels are dealt out to this many heads.
    pub heads: usize,
    /// Channels of a head.
    pub head_dim: usize,
    /// Whether the sums are named.
    pub sums: bool,
}

impl AttnSpec {
    /// Whether the heads share out the channels.
    pub open spec fn wf(self) -> bool {
        self.hidden == self.heads * self.head_dim && self.heads > 0 && self.head_dim > 0
            && self.inner > 0
    }
}

/// Whether the tables of relative positions of `t` steps fit a machine word.
pub open spec fn attention_fits(t: int) -> bool {
    0 < t && 2 * t * t + t <= usize::MAX
}

// ---------------------------------------------------------------------------
// Relative positions
// ---------------------------------------------------------------------------

/// Zeros on either side of the embeddings that are there.
pub open spec fn rel_pad(t: int) -> int {
    if t > WINDOW + 1 {
        t - (WINDOW + 1)
    } else {
        0
    }
}

/// The first embedding that is needed.
pub open spec fn rel_start(t: int) -> int {
    if t < WINDOW + 1 {
        WINDOW + 1 - t
    } else {
        0
    }
}

/// The embeddings of the relative positions from `1 - t` to `t - 1`: zero beyond the
/// window.
pub open spec fn rel_embeddings(e: Expr, t: usize) -> Expr {
    let pad = rel_pad(t as int) as usize;
    let padded = if pad > 0 {
        ap1(Op::PadZeros { dim: 1, left: pad, right: pad }, e)
    } else {
        e
    };
    ap1(
        Op::Narrow { dim: 1, start: rel_start(t as int) as usize, len: (2 * t - 1) as usize },
        padded,
    )
}

/// From a score for each relative position to one for each position.
pub open spec fn to_absolute(x: Expr, b: usize, h: usize, t: usize) -> Expr {
    let x = ap1(Op::PadZeros { dim: 3, left: 0, right: 1 }, x);
    let x = ap1(Op::Reshape(Shape::D3(b, h, (t * 2 * t) as usize)), x);
    let x = ap1(Op::PadZeros { dim: 2, left: 0, right: (t - 1) as usize }, x);
    let x = ap1(Op::Reshape(Shape::D4(b, h, (t + 1) as usize, (2 * t - 1) as usize)), x);
    let x = ap1(Op::Narrow { dim: 2, start: 0, len: t }, x);
    ap1(Op::Narrow { dim: 3, start: (t - 1) as usize, len: t }, x)
}

/// From a weight for each position to one for each relative position.
pub open spec fn to_relative(x: Expr, b: usize, h: usize, t: usize) -> Expr {
    let x = ap1(Op::PadZeros { dim: 3, left: 0, right: (t - 1) as usize }, x);
    let x = ap1(Op::Reshape(Shape::D3(b, h, (t * (2 * t - 1)) as usize)), x);
    let x = ap1(Op::PadZeros { dim: 2, left: t, right: 0 }, x);
    let x = ap1(Op::Reshape(Shape::D4(b, h, t, (2 * t) as usize)), x);
    ap1(Op::Narrow { dim: 3, start: 1, len: (2 * t - 1) as usize }, x)
}

/// Takes the embeddings of the relative positions of `t` steps.
pub fn get_relative_embeddings(tape: &mut Tape, e: usize, d: usize, t: usize) -> (r: usize)
    requires
        old(tape).wf(),
        old(tape).has(e, Shape::D3(1, N_RELATIVE, d)),
        attention_fits(t as int),
    ensures
        final(tape).wf(),
        final(tape).extends(old(tape)),
        final(tape).seen@ == old(tape).seen@,
        final(tape).holds(
            r,
            rel_embeddings(old(tape).value(e), t),
            Shape::D3(1, (2 * t - 1) as usize, d),
        ),
{
    assert(2 * t - 1 <= usize::MAX && 2 * t <= usize::MAX) by (nonlinear_arith)
        requires
            2 * t * t + t <= usize::MAX,
            0 < t,
    ;
    let want: usize = 2 * t - 1;
    let pad: usize = if t > WINDOW + 1 {
        t - (WINDOW + 1)
    } else {
        0
    };
    let start: usize = if t < WINDOW + 1 {
        WINDOW + 1 - t
    } else {
        0
    };
    let padded = if pad > 0 {
        tape.op1(Op::PadZeros { dim: 1, left: pad, right: pad }, e)
    } else {
        e
    };
    tape.op1(Op::Narrow { dim: 1, start, len: want }, padded)
}

/// Aligns the scores of relative positions with the positions.
pub fn relative_position_to_absolute_position(
    tape: &mut Tape,
    x: usize,
    b: usize,
    h: usize,
    t: usize,
) -> (r: usize)
    requires
        old(tape).wf(),
        attention_fits(t as int),
        old(tape).has(x, Shape::D4(b, h, t, (2 * t - 1) as usize)),
    ensures
        final(tape).wf(),
        final(tape).extends(old(tape)),
        final(tape).seen@ == old(tape).seen@,
        final(tape).holds(
            r,
            to_absolute(old(tape).value(x), b, h, t),
            Shape::D4(b, h, t, t),
        ),
{
    assert(2 * t <= usize::MAX && t * 2 * t == 2 * t * t && t * 2 <= usize::MAX && t * 2 >= 0)
        by (nonlinear_arith)
        requires
            2 * t * t + t <= usize::MAX,
            0 < t,
    ;
    let x = tape.op1(Op::PadZeros { dim: 3, left: 0, right: 1 }, x);
    assert(b * h * t * (2 * t) == b * h * (t * 2 * t)) by (nonlinear_arith);
    let x = tape.op1(Op::Reshape(Shape::D3(b, h, t * 2 * t)), x);
    let x = tape.op1(Op::PadZeros { dim: 2, left: 0, right: t - 1 }, x);
    assert(b * h * (t * 2 * t + (t - 1)) == b * h * (t + 1) * (2 * t - 1)) by (nonlinear_arith);
    let x = tape.op1(Op::Reshape(Shape::D4(b, h, t + 1, 2 * t - 1)), x);
    let x = tape.op1(Op::Narrow { dim: 2, start: 0, len: t }, x);
    tape.op1(Op::Narrow { dim: 3, start: t - 1, len: t }, x)
}

/// Aligns the weights of positions with the relative positions.
pub fn absolute_position_to_relative_position(
    tape: &mut Tape,
    x: usize,
    b: usize,
    h: usize,
    t: usize,
) -> (r: usize)
    requires
        old(tape).wf(),
        attention_fits(t as int),
        old(tape).has(x, Shape::D4(b, h, t, t)),
    ensures
        final(tape).wf(),
        final(tape).extends(old(tape)),
        final(tape).seen@ == old(tape).seen@,
        final(tape).holds(
            r,
            to_relative(old(tape).value(x), b, h, t),
            Shape::D4(b, h, t, (2 * t - 1) as usize),
        ),
{
    assert(2 * t <= usize::MAX && t * (2 * t - 1) == 2 * t * t - t && 0 <= t * (2 * t - 1))
        by (nonlinear_arith)
        requires
            2 * t * t + t <= usize::MAX,
            0 < t,
    ;
    let x = tape.op1(Op::PadZeros { dim: 3, left: 0, right: t - 1 }, x);
    assert(b * h * t * (2 * t - 1) == b * h * (t * (2 * t - 1))) by (nonlinear_arith);
    let x = tape.op1(Op::Reshape(Shape::D3(b, h, t * (2 * t - 1))), x);
    let x = tape.op1(Op::PadZeros { dim: 2, left: t, right: 0 }, x);
    assert(b * h * (t + t * (2 * t - 1)) == b * h * t * (2 * t)) by (nonlinear_arith);
    let x = tape.op1(Op::Reshape(Shape::D4(b, h, t, 2 * t)), x);
    tape.op1(Op::Narrow { dim: 3, start: 1, len: 2 * t - 1 }, x)
}

/// The score that ends up at row `i` and column `j` is the one that row `i` gave to
/// the relative position `j - i`: at `i * (2t - 1) + (t - 1 + j)` in rows of `2t - 1`
/// stands what stood at column `t - 1 + j - i` of row `i` in rows of `2t`.
pub proof fn law_scores_align(t: int, i: int, j: int)
    requires
        0 <= i < t,
        0 <= j < t,
    ensures
        ({
            let at = i * (2 * t - 1) + (t - 1 + j);
            &&& at / (2 * t) == i
            &&& at % (2 * t) == t - 1 + (j - i)
            &&& at % (2 * t) < 2 * t - 1
        }),
{
    let at = i * (2 * t - 1) + (t - 1 + j);
    let col = t - 1 + (j - i);
    assert(at == i * (2 * t) + col) by (nonlinear_arith)
        requires
            at == i * (2 * t - 1) + (t - 1 + j),
            col == t - 1 + (j - i),
    ;
    vstd::arithmetic::div_mod::lemma_fundamental_div_mod_converse(at, 2 * t, i, col);
}

/// The weight that ends up at row `i` and column `r` is the one that row `i` gave to
/// the position `i + r - (t - 1)`, or zero where there is none: at `i * 2t + r + 1`,
/// less the `t` zeros in front, stands in rows of `2t - 1` the column of that
/// position, or one of the zeros at the end of a row.
pub proof fn law_weights_align(t: int, i: int, r: int)
    requires
        0 <= i < t,
        0 <= r < 2 * t - 1,
    ensures
        ({
            let at = i * (2 * t) + (r + 1) - t;
            let j = i + r - (t - 1);
            if 0 <= j < t {
                at >= 0 && at / (2 * t - 1) == i && at % (2 * t - 1) == j
            } else {
                at < 0 || at % (2 * t - 1) >= t
            }
        }),
{
    let at = i * (2 * t) + (r + 1) - t;
    let j = i + r - (t - 1);
    let w = 2 * t - 1;
    assert(at == i * w + j) by (nonlinear_arith)
        requires
            at == i * (2 * t) + (r + 1) - t,
            j == i + r - (t - 1),
            w == 2 * t - 1,
    ;
    if 0 <= j {
        assert(at >= 0) by (nonlinear_arith)
            requires
                at == i * w + j,
                i >= 0,
                w > 0,
                j >= 0,
        ;
        if j < w {
            vstd::arithmetic::div_mod::lemma_fundamental_div_mod_converse(at, w, i, j);
        } else {
            assert(false);
        }
    } else if at >= 0 {
        assert(at == (i - 1) * w + (j + w)) by (nonlinear_arith)
            requires
                at == i * w + j,
        ;
        vstd::arithmetic::div_mod::lemma_fundamental_div_mod_converse(at, w, i - 1, j + w);
    }
}

// ---------------------------------------------------------------------------
// One layer of attention
// ---------------------------------------------------------------------------

/// A layer of attention, with the name that its weights stand under.
#[derive(Debug)]
pub struct AttnLayer {
    pub prefix: String,
    pub conv_q: Pair,
    pub conv_k: Pair,
    pub conv_v: Pair,
    pub conv_o: Pair,
    pub emb_rel_k: usize,
    pub emb_rel_v: usize,
}

/// What a layer of attention computes on the way to its output.
pub struct AttnParts {
    pub q: Expr,
    pub k: Expr,
    pub v: Expr,
    pub scores: Expr,
    pub rel_logits: Expr,
    pub sum: Expr,
    pub attn: Expr,
    pub by_value: Expr,
    pub by_position: Expr,
    pub mixed: Expr,
    pub out: Expr,
}

/// The channels dealt out to the heads: `[b, heads, t, head_dim]`.
pub open spec fn split_heads(p: AttnSpec, x: Expr, b: usize, t: usize) -> Expr {
    ap1(Op::SwapLast, ap1(Op::Reshape(Shape::D4(b, p.heads, p.head_dim, t)), x))
}

/// The scores of one head's queries for its keys, and by relative position.
pub open spec fn attn_parts(
    p: AttnSpec,
    prefix: Seq<char>,
    x: Expr,
    mask: Expr,
    b: usize,
    t: usize,
) -> AttnParts {
    let rel = Shape::D3(1, N_RELATIVE, p.head_dim);
    let emb_k = rel_embeddings(weight(prefix, ".emb_rel_k", rel), t);
    let emb_v = rel_embeddings(weight(prefix, ".emb_rel_v", rel), t);
    let q = pointwise(prefix + ".conv_q"@, p.hidden, p.hidden, x);
    let k = pointwise(prefix + ".conv_k"@, p.hidden, p.hidden, x);
    let v = pointwise(prefix + ".conv_v"@, p.hidden, p.hidden, x);
    let asked = ap1(Op::InvSqrt(p.head_dim), split_heads(p, q, b, t));
    let scores = ap2(Op::MatMul, asked, ap1(Op::SwapLast, split_heads(p, k, b, t)));
    let rel_logits = ap2(Op::MatMul, asked, ap1(Op::SwapLast, emb_k));
    let sum = ap2(Op::Add, scores, to_absolute(rel_logits, b, p.heads, t));
    let bias = ap1(Op::MaskBias, ap1(Op::Expand(Shape::D4(b, p.heads, t, t)), mask));
    let attn = ap1(Op::Softmax, ap2(Op::Add, sum, bias));
    let by_value = ap2(Op::MatMul, attn, split_heads(p, v, b, t));
    let by_position = ap2(Op::MatMul, to_relative(attn, b, p.heads, t), emb_v);
    let mixed = ap2(Op::Add, by_value, by_position);
    let merged = ap1(Op::Reshape(Shape::D3(b, p.hidden, t)), ap1(Op::SwapLast, mixed));
    let out = pointwise(prefix + ".conv_o"@, p.hidden, p.hidden, merged);
    AttnParts { q, k, v, scores, rel_logits, sum, attn, by_value, by_position, mixed, out }
}

/// The names of what layer `i` computes.
pub open spec fn attn_seen(i: int, a: AttnParts) -> Seq<(Seq<char>, Expr)> {
    let at = "attn_layers."@ + decimal(i);
    seq![
        (at + "/conv_q/Conv_output_0"@, a.q),
        (at + "/conv_k/Conv_output_0"@, a.k),
        (at + "/conv_v/Conv_output_0"@, a.v),
        (at + "/MatMul_output_0"@, a.scores),
        (at + "/MatMul_1_output_0"@, a.rel_logits),
        (at + "/Add_2_output_0"@, a.sum),
        (at + "/Softmax_output_0"@, a.attn),
        (at + "/MatMul_2_output_0"@, a.by_value),
        (at + "/MatMul_3_output_0"@, a.by_position),
        (at + "/Add_4_output_0"@, a.mixed),
        (at + "/conv_o/Conv_output_0"@, a.out),
    ]
}

/// Applies a pointwise convolution.
pub(crate) fn convolve(
    tape: &mut Tape,
    pair: Pair,
    x: usize,
    b: usize,
    t: usize,
    out: usize,
    inp: usize,
    prefix: Ghost<Seq<char>>,
) -> (r: usize)
    requires
        old(tape).wf(),
        pair.loaded(old(tape), prefix@, Shape::D3(out, inp, 1), Shape::D1(out)),
        old(tape).has(x, Shape::D3(b, inp, t)),
        t > 0,
    ensures
        final(tape).wf(),
        final(tape).grown(
            old(tape),
            r,
            pointwise(prefix@, out, inp, old(tape).value(x)),
            Shape::D3(b, out, t),
        ),
{
    assert(inp == inp * 1);
    tape.op3(Op::Conv { dilation: 1, groups: 1 }, x, pair.weight, pair.bias)
}

/// Deals the channels out to the heads.
fn deal(tape: &mut Tape, p: AttnSpec, x: usize, b: usize, t: usize) -> (r: usize)
    requires
        old(tape).wf(),
        p.wf(),
        old(tape).has(x, Shape::D3(b, p.hidden, t)),
    ensures
        final(tape).wf(),
        final(tape).extends(old(tape)),
        final(tape).seen@ == old(tape).seen@,
        final(tape).holds(
            r,
            split_heads(p, old(tape).value(x), b, t),
            Shape::D4(b, p.heads, t, p.head_dim),
        ),
{
    assert(b * p.hidden * t == b * p.heads * p.head_dim * t) by (nonlinear_arith)
        requires
            p.hidden == p.heads * p.head_dim,
    ;
    let h = tape.op1(Op::Reshape(Shape::D4(b, p.heads, p.head_dim, t)), x);
    tape.op1(Op::SwapLast, h)
}

impl AttnLayer {
    /// Whether the layer is loaded.
    pub open spec fn loaded(&self, tape: &Tape, p: AttnSpec) -> bool {
        let ws = Shape::D3(p.hidden, p.hidden, 1);
        let bs = Shape::D1(p.hidden);
        let rel = Shape::D3(1, N_RELATIVE, p.head_dim);
        &&& self.conv_q.loaded(tape, self.prefix@ + ".conv_q"@, ws, bs)
        &&& self.conv_k.loaded(tape, self.prefix@ + ".conv_k"@, ws, bs)
        &&& self.conv_v.loaded(tape, self.prefix@ + ".conv_v"@, ws, bs)
        &&& self.conv_o.loaded(tape, self.prefix@ + ".conv_o"@, ws, bs)
        &&& tape.holds(self.emb_rel_k, weight(self.prefix@, ".emb_rel_k", rel), rel)
        &&& tape.holds(self.emb_rel_v, weight(self.prefix@, ".emb_rel_v", rel), rel)
    }

    /// Loads a layer from under `prefix`.
    pub fn load(tape: &mut Tape, p: AttnSpec, prefix: String) -> (r: AttnLayer)
        requires
            old(tape).wf(),
        ensures
            final(tape).wf(),
            final(tape).extends(old(tape)),
            final(tape).seen@ == old(tape).seen@,
            r.loaded(final(tape), p),
            r.prefix == prefix,
    {
        let ws = Shape::D3(p.hidden, p.hidden, 1);
        let bs = Shape::D1(p.hidden);
        let rel = Shape::D3(1, N_RELATIVE, p.head_dim);
        let at = join(prefix.as_str(), ".conv_q");
        let conv_q = Pair::load(tape, at.as_str(), ws, bs);
        let at = join(prefix.as_str(), ".conv_k");
        let conv_k = Pair::load(tape, at.as_str(), ws, bs);
        let at = join(prefix.as_str(), ".conv_v");
        let conv_v = Pair::load(tape, at.as_str(), ws, bs);
        let at = join(prefix.as_str(), ".conv_o");
        let conv_o = Pair::load(tape, at.as_str(), ws, bs);
        let emb_rel_k = take_weight(tape, prefix.as_str(), ".emb_rel_k", rel);
        let emb_rel_v = take_weight(tape, prefix.as_str(), ".emb_rel_v", rel);
        AttnLayer { prefix, conv_q, conv_k, conv_v, conv_o, emb_rel_k, emb_rel_v }
    }

    /// Applies the layer to `x`, of `[b, hidden, t]`, under a mask of `[b, 1, t, t]`,
    /// and names what it computes.
    #[verifier::rlimit(60)]
    pub fn forward(
        &self,
        tape: &mut Tape,
        p: AttnSpec,
        x: usize,
        mask: usize,
        b: usize,
        t: usize,
        i: usize,
    ) -> (r: usize)
        requires
            old(tape).wf(),
            p.wf(),
            self.loaded(old(tape), p),
            old(tape).has(x, Shape::D3(b, p.hidden, t)),
            old(tape).has(mask, Shape::D4(b, 1, t, t)),
            attention_fits(t as int),
        ensures
            final(tape).wf(),
            final(tape).extends(old(tape)),
            final(tape).seen@ == old(tape).seen@ + attn_seen(
                i as int,
                attn_parts(p, self.prefix@, old(tape).value(x), old(tape).value(mask), b, t),
            ),
            final(tape).holds(
                r,
                attn_parts(p, self.prefix@, old(tape).value(x), old(tape).value(mask), b, t).out,
                Shape::D3(b, p.hidden, t),
            ),
    {
        let ghost s0 = tape.seen@;
        let ghost a = attn_parts(p, self.prefix@, tape.value(x), tape.value(mask), b, t);
        let ghost start = *tape;
        let at = join_number("attn_layers.", i, "");
        assert(at@ == "attn_layers."@ + decimal(i as int)) by {
            reveal_strlit("");
        }
        let at = at.as_str();
        let n: usize = p.hidden;
        let q = convolve(tape, self.conv_q, x, b, t, n, n, Ghost(self.prefix@ + ".conv_q"@));
        let k = convolve(tape, self.conv_k, x, b, t, n, n, Ghost(self.prefix@ + ".conv_k"@));
        let v = convolve(tape, self.conv_v, x, b, t, n, n, Ghost(self.prefix@ + ".conv_v"@));
        tape.record(join(at, "/conv_q/Conv_output_0"), q);
        tape.record(join(at, "/conv_k/Conv_output_0"), k);
        tape.record(join(at, "/conv_v/Conv_output_0"), v);
        let h = deal(tape, p, q, b, t);
        let asked = tape.op1(Op::InvSqrt(p.head_dim), h);
        let h = deal(tape, p, k, b, t);
        let h = tape.op1(Op::SwapLast, h);
        let scores = tape.op2(Op::MatMul, asked, h);
        tape.record(join(at, "/MatMul_output_0"), scores);
        let h = get_relative_embeddings(tape, self.emb_rel_k, p.head_dim, t);
        let h = tape.op1(Op::SwapLast, h);
        let rel_logits = tape.op2(Op::MatMul, asked, h);
        tape.record(join(at, "/MatMul_1_output_0"), rel_logits);
        let h = relative_position_to_absolute_position(tape, rel_logits, b, p.heads, t);
        let sum = tape.op2(Op::Add, scores, h);
        tape.record(join(at, "/Add_2_output_0"), sum);
        assert(tape.holds(sum, a.sum, Shape::D4(b, p.heads, t, t)));
        let h = tape.op1(Op::Expand(Shape::D4(b, p.heads, t, t)), mask);
        let bias = tape.op1(Op::MaskBias, h);
        let h = tape.op2(Op::Add, sum, bias);
        let attn = tape.op1(Op::Softmax, h);
        tape.record(join(at, "/Softmax_output_0"), attn);
        assert(tape.holds(attn, a.attn, Shape::D4(b, p.heads, t, t)));
        let h = deal(tape, p, v, b, t);
        let by_value = tape.op2(Op::MatMul, attn, h);
        tape.record(join(at, "/MatMul_2_output_0"), by_value);
        let rel = absolute_position_to_relative_position(tape, attn, b, p.heads, t);
        let h = get_relative_embeddings(tape, self.emb_rel_v, p.head_dim, t);
        let by_position = tape.op2(Op::MatMul, rel, h);
        tape.record(join(at, "/MatMul_3_output_0"), by_position);
        let mixed = tape.op2(Op::Add, by_value, by_position);
        tape.record(join(at, "/Add_4_output_0"), mixed);
        assert(tape.holds(mixed, a.mixed, Shape::D4(b, p.heads, t, p.head_dim)));
        let h = tape.op1(Op::SwapLast, mixed);
        assert(b * p.heads * p.head_dim * t == b * p.hidden * t) by (nonlinear_arith)
            requires
                p.hidden == p.heads * p.head_dim,
        ;
        let h = tape.op1(Op::Reshape(Shape::D3(b, n, t)), h);
        let out = convolve(tape, self.conv_o, h, b, t, n, n, Ghost(self.prefix@ + ".conv_o"@));
        tape.record(join(at, "/conv_o/Conv_output_0"), out);
        proof {
            let l = attn_seen(i as int, a);
            let s1 = tape.seen@;
            assert(s1 == s0.push(l[0]).push(l[1]).push(l[2]).push(l[3]).push(l[4]).push(l[5]).push(
                l[6],
            ).push(l[7]).push(l[8]).push(l[9]).push(l[10]));
            assert(s1 == s0 + l);
        }
        out
    }
}

// ---------------------------------------------------------------------------
// One feed-forward layer
// ---------------------------------------------------------------------------

/// A feed-forward layer, with the name that its weights stand under.
#[derive(Debug)]
pub struct FfnLayer {
    pub prefix: String,
    pub conv_1: Pair,
    pub conv_2: Pair,
}

/// What a feed-forward layer computes on the way to its output.
pub struct FfnParts {
    pub conv_1: Expr,
    pub conv_2: Expr,
    pub out: Expr,
}

/// What a feed-forward layer computes: everything is masked, before, between and
/// after the convolutions.
pub open spec fn ffn_parts(p: AttnSpec, prefix: Seq<char>, x: Expr, mask: Expr) -> FfnParts {
    let conv_1 = pointwise(prefix + ".conv_1"@, p.inner, p.hidden, ap2(Op::Mul, x, mask));
    let conv_2 = pointwise(
        prefix + ".conv_2"@,
        p.hidden,
        p.inner,
        ap2(Op::Mul, ap1(Op::Relu, conv_1), mask),
    );
    FfnParts { conv_1, conv_2, out: ap2(Op::Mul, conv_2, mask) }
}

/// The names of what layer `i` computes.
pub open spec fn ffn_seen(i: int, f: FfnParts) -> Seq<(Seq<char>, Expr)> {
    let at = "ffn_layers."@ + decimal(i);
    seq![(at + "/conv_1/Conv_output_0"@, f.conv_1), (at + "/conv_2/Conv_output_0"@, f.conv_2)]
}

impl FfnLayer {
    /// Whether the layer is loaded.
    pub open spec fn loaded(&self, tape: &Tape, p: AttnSpec) -> bool {
        &&& self.conv_1.loaded(
            tape,
            self.prefix@ + ".conv_1"@,
            Shape::D3(p.inner, p.hidden, 1),
            Shape::D1(p.inner),
        )
        &&& self.conv_2.loaded(
            tape,
            self.prefix@ + ".conv_2"@,
            Shape::D3(p.hidden, p.inner, 1),
            Shape::D1(p.hidden),
        )
    }

    /// Loads a layer from under `prefix`.
    pub fn load(tape: &mut Tape, p: AttnSpec, prefix: String) -> (r: FfnLayer)
        requires
            old(tape).wf(),
        ensures
            final(tape).wf(),
            final(tape).extends(old(tape)),
            final(tape).seen@ == old(tape).seen@,
            r.loaded(final(tape), p),
            r.prefix == prefix,
    {
        let at = join(prefix.as_str(), ".conv_1");
        let conv_1 = Pair::load(
            tape,
            at.as_str(),
            Shape::D3(p.inner, p.hidden, 1),
            Shape::D1(p.inner),
        );
        let at = join(prefix.as_str(), ".conv_2");
        let conv_2 = Pair::load(
            tape,
            at.as_str(),
            Shape::D3(p.hidden, p.inner, 1),
            Shape::D1(p.hidden),
        );
        FfnLayer { prefix, conv_1, conv_2 }
    }

    /// Applies the layer to `x`, of `[b, hidden, t]`, under a mask of `[b, 1, t]`, and
    /// names what it computes.
    pub fn forward(
        &self,
        tape: &mut Tape,
        p: AttnSpec,
        x: usize,
        mask: usize,
        b: usize,
        t: usize,
        i: usize,
    ) -> (r: usize)
        requires
            old(tape).wf(),
            p.wf(),
            self.loaded(old(tape), p),
            old(tape).has(x, Shape::D3(b, p.hidden, t)),
            old(tape).has(mask, Shape::D3(b, 1, t)),
            t > 0,
        ensures
            final(tape).wf(),
            final(tape).extends(old(tape)),
            final(tape).seen@ == old(tape).seen@ + ffn_seen(
                i as int,
                ffn_parts(p, self.prefix@, old(tape).value(x), old(tape).value(mask)),
            ),
            final(tape).holds(
                r,
                ffn_parts(p, self.prefix@, old(tape).value(x), old(tape).value(mask)).out,
                Shape::D3(b, p.hidden, t),
            ),
    {
        let ghost s0 = tape.seen@;
        let ghost f = ffn_parts(p, self.prefix@, tape.value(x), tape.value(mask));
        let n: usize = p.hidden;
        let m: usize = p.inner;
        let h = tape.op2(Op::Mul, x, mask);
        let conv_1 = convolve(tape, self.conv_1, h, b, t, m, n, Ghost(self.prefix@ + ".conv_1"@));
        tape.record(join_number("ffn_layers.", i, "/conv_1/Conv_output_0"), conv_1);
        let h = tape.op1(Op::Relu, conv_1);
        let h = tape.op2(Op::Mul, h, mask);
        let conv_2 = convolve(tape, self.conv_2, h, b, t, n, m, Ghost(self.prefix@ + ".conv_2"@));
        tape.record(join_number("ffn_layers.", i, "/conv_2/Conv_output_0"), conv_2);
        let out = tape.op2(Op::Mul, conv_2, mask);
        proof {
            let l = ffn_seen(i as int, f);
            let s1 = tape.seen@;
            assert(s1 == s0.push(l[0]).push(l[1]));
            assert(s1 == s0 + l);
        }
        out
    }
}

// ---------------------------------------------------------------------------
// The encoder
// ---------------------------------------------------------------------------

/// An attention layer and a feed-forward layer, each followed by a norm.
#[derive(Debug)]
pub struct EncoderLayer {
    pub attn: AttnLayer,
    pub ffn: FfnLayer,
    pub norm_1: Pair,
    pub norm_2: Pair,
}

/// A stack of such layers.
#[derive(Debug)]
pub struct AttnEncoder {
    pub sizes: AttnSpec,
    pub prefix: String,
    pub layers: Vec<EncoderLayer>,
}

/// What one layer of an encoder computes.
pub struct EncoderParts {
    pub attn: AttnParts,
    pub sum_1: Expr,
    pub norm_1: Expr,
    pub ffn: FfnParts,
    pub sum_2: Expr,
    pub norm_2: Expr,
    pub out: Expr,
}

/// Which steps may attend to which: those that are both valid.
pub open spec fn attn_mask(mask: Expr, b: usize, t: usize) -> Expr {
    ap1(
        Op::Reshape(Shape::D4(b, 1, t, t)),
        ap2(
            Op::MatMul,
            ap1(Op::Reshape(Shape::D3(b, t, 1)), mask),
            ap1(Op::Reshape(Shape::D3(b, 1, t)), mask),
        ),
    )
}

/// What layer `i` of an encoder computes from `x`: each half adds its result to its
/// input and normalizes the sum.
pub open spec fn encoder_parts(
    p: AttnSpec,
    prefix: Seq<char>,
    x: Expr,
    mask: Expr,
    b: usize,
    t: usize,
    i: int,
) -> EncoderParts {
    let attn = attn_parts(
        p,
        prefix + ".attn_layers."@ + decimal(i),
        x,
        attn_mask(mask, b, t),
        b,
        t,
    );
    let sum_1 = ap2(Op::Add, x, attn.out);
    let norm_1 = channel_norm(
        prefix + ".norm_layers_1."@ + decimal(i) + ".norm"@,
        p.hidden,
        sum_1,
    );
    let mid = ap1(Op::SwapLast, norm_1);
    let ffn = ffn_parts(p, prefix + ".ffn_layers."@ + decimal(i), mid, mask);
    let sum_2 = ap2(Op::Add, mid, ffn.out);
    let norm_2 = channel_norm(
        prefix + ".norm_layers_2."@ + decimal(i) + ".norm"@,
        p.hidden,
        sum_2,
    );
    EncoderParts { attn, sum_1, norm_1, ffn, sum_2, norm_2, out: ap1(Op::SwapLast, norm_2) }
}

/// The output of the first `n` layers of an encoder.
pub open spec fn encoder_value(
    p: AttnSpec,
    prefix: Seq<char>,
    x: Expr,
    mask: Expr,
    b: usize,
    t: usize,
    n: int,
) -> Expr
    decreases n,
{
    if n <= 0 {
        x
    } else {
        encoder_parts(
            p,
            prefix,
            encoder_value(p, prefix, x, mask, b, t, n - 1),
            mask,
            b,
            t,
            n - 1,
        ).out
    }
}

/// The number in the name of a layer's first sum.
pub open spec fn first_sum(i: int) -> int {
    if i == 0 {
        0
    } else {
        2
    }
}

/// The names of what layer `i` computes.
pub open spec fn encoder_layer_seen(p: AttnSpec, i: int, e: EncoderParts) -> Seq<
    (Seq<char>, Expr),
> {
    let norm = "/norm/LayerNormalization_output_0"@;
    let sum_1 = ("attn_encoder/Add_"@ + decimal(first_sum(i)) + "_output_0"@, e.sum_1);
    let norm_1 = ("norm_layers_1."@ + decimal(i) + norm, e.norm_1);
    let sum_2 = ("attn_encoder/Add_"@ + decimal(2 * i + 1) + "_output_0"@, e.sum_2);
    let norm_2 = ("norm_layers_2."@ + decimal(i) + norm, e.norm_2);
    if p.sums {
        attn_seen(i, e.attn) + seq![sum_1, norm_1] + ffn_seen(i, e.ffn) + seq![sum_2, norm_2]
    } else {
        attn_seen(i, e.attn) + seq![norm_1] + ffn_seen(i, e.ffn) + seq![norm_2]
    }
}

/// The names of what the first `n` layers compute.
pub open spec fn encoder_seen(
    p: AttnSpec,
    prefix: Seq<char>,
    x: Expr,
    mask: Expr,
    b: usize,
    t: usize,
    n: int,
) -> Seq<(Seq<char>, Expr)>
    decreases n,
{
    if n <= 0 {
        seq![]
    } else {
        encoder_seen(p, prefix, x, mask, b, t, n - 1) + encoder_layer_seen(
            p,
            n - 1,
            encoder_parts(
                p,
                prefix,
                encoder_value(p, prefix, x, mask, b, t, n - 1),
                mask,
                b,
                t,
                n - 1,
            ),
        )
    }
}

/// Makes the mask of `[b, 1, t, t]` from one of `[b, 1, t]`.
pub fn make_attn_mask(tape: &mut Tape, mask: usize, b: usize, t: usize) -> (r: usize)
    requires
        old(tape).wf(),
        old(tape).has(mask, Shape::D3(b, 1, t)),
    ensures
        final(tape).wf(),
        final(tape).extends(old(tape)),
        final(tape).seen@ == old(tape).seen@,
        final(tape).holds(
            r,
            attn_mask(old(tape).value(mask), b, t),
            Shape::D4(b, 1, t, t),
        ),
{
    assert(b * 1 * t == b * t * 1) by (nonlinear_arith);
    assert(b * 1 * t * t == b * t * t) by (nonlinear_arith);
    let q = tape.op1(Op::Reshape(Shape::D3(b, t, 1)), mask);
    let k = tape.op1(Op::Reshape(Shape::D3(b, 1, t)), mask);
    let h = tape.op2(Op::MatMul, q, k);
    tape.op1(Op::Reshape(Shape::D4(b, 1, t, t)), h)
}

/// Normalizes the channels of `[b, n, t]`. The result has them last.
pub(crate) fn normalize(
    tape: &mut Tape,
    pair: Pair,
    x: usize,
    b: usize,
    n: usize,
    t: usize,
    prefix: Ghost<Seq<char>>,
) -> (r: usize)
    requires
        old(tape).wf(),
        pair.loaded(old(tape), prefix@, Shape::D1(n), Shape::D1(n)),
        old(tape).has(x, Shape::D3(b, n, t)),
    ensures
        final(tape).wf(),
        final(tape).extends(old(tape)),
        final(tape).seen@ == old(tape).seen@,
        final(tape).holds(
            r,
            channel_norm(prefix@, n, old(tape).value(x)),
            Shape::D3(b, t, n),
        ),
{
    let h = tape.op1(Op::SwapLast, x);
    tape.op3(Op::LayerNorm, h, pair.weight, pair.bias)
}

impl EncoderLayer {
    /// Whether layer `i` of the encoder under `prefix` is loaded.
    pub open spec fn loaded(&self, tape: &Tape, p: AttnSpec, prefix: Seq<char>, i: int) -> bool {
        let v = Shape::D1(p.hidden);
        &&& self.attn.loaded(tape, p)
        &&& self.attn.prefix@ == prefix + ".attn_layers."@ + decimal(i)
        &&& self.ffn.loaded(tape, p)
        &&& self.ffn.prefix@ == prefix + ".ffn_layers."@ + decimal(i)
        &&& self.norm_1.loaded(tape, prefix + ".norm_layers_1."@ + decimal(i) + ".norm"@, v, v)
        &&& self.norm_2.loaded(tape, prefix + ".norm_layers_2."@ + decimal(i) + ".norm"@, v, v)
    }

    /// A layer stays loaded while a program grows.
    proof fn lemma_stays(&self, before: &Tape, after: &Tape, p: AttnSpec, prefix: Seq<char>, i: int)
        requires
            self.loaded(before, p, prefix, i),
            after.extends(before),
        ensures
            self.loaded(after, p, prefix, i),
    {
    }

    /// Loads layer `i` of the encoder under `prefix`.
    pub fn load(tape: &mut Tape, p: AttnSpec, prefix: &str, i: usize) -> (r: EncoderLayer)
        requires
            old(tape).wf(),
        ensures
            final(tape).wf(),
            final(tape).extends(old(tape)),
            final(tape).seen@ == old(tape).seen@,
            r.loaded(final(tape), p, prefix@, i as int),
    {
        assert(""@.len() == 0) by {
            reveal_strlit("");
        }
        let v = Shape::D1(p.hidden);
        let root = join(prefix, ".attn_layers.");
        let at = join_number(root.as_str(), i, "");
        assert(at@ == prefix@ + ".attn_layers."@ + decimal(i as int));
        let attn = AttnLayer::load(tape, p, at);
        let root = join(prefix, ".ffn_layers.");
        let at = join_number(root.as_str(), i, "");
        assert(at@ == prefix@ + ".ffn_layers."@ + decimal(i as int));
        let ffn = FfnLayer::load(tape, p, at);
        let root = join(prefix, ".norm_layers_1.");
        let at = join_number(root.as_str(), i, ".norm");
        let norm_1 = Pair::load(tape, at.as_str(), v, v);
        let root = join(prefix, ".norm_layers_2.");
        let at = join_number(root.as_str(), i, ".norm");
        let norm_2 = Pair::load(tape, at.as_str(), v, v);
        EncoderLayer { attn, ffn, norm_1, norm_2 }
    }

    /// Applies the layer, which is number `i`, to `x`.
    #[verifier::rlimit(40)]
    fn forward(
        &self,
        tape: &mut Tape,
        p: AttnSpec,
        x: usize,
        mask: usize,
        pairs: usize,
        b: usize,
        t: usize,
        i: usize,
        prefix: Ghost<Seq<char>>,
    ) -> (r: usize)
        requires
            old(tape).wf(),
            p.wf(),
            self.loaded(old(tape), p, prefix@, i as int),
            2 * i + 1 <= usize::MAX,
            old(tape).has(x, Shape::D3(b, p.hidden, t)),
            old(tape).has(mask, Shape::D3(b, 1, t)),
            old(tape).holds(
                pairs,
                attn_mask(old(tape).value(mask), b, t),
                Shape::D4(b, 1, t, t),
            ),
            attention_fits(t as int),
        ensures
            final(tape).wf(),
            final(tape).extends(old(tape)),
            final(tape).seen@ == old(tape).seen@ + encoder_layer_seen(
                p,
                i as int,
                encoder_parts(
                    p,
                    prefix@,
                    old(tape).value(x),
                    old(tape).value(mask),
                    b,
                    t,
                    i as int,
                ),
            ),
            final(tape).holds(
                r,
                encoder_parts(
                    p,
                    prefix@,
                    old(tape).value(x),
                    old(tape).value(mask),
                    b,
                    t,
                    i as int,
                ).out,
                Shape::D3(b, p.hidden, t),
            ),
    {
        let ghost s0 = tape.seen@;
        let ghost e = encoder_parts(
            p,
            prefix@,
            tape.value(x),
            tape.value(mask),
            b,
            t,
            i as int,
        );
        let norm = "/norm/LayerNormalization_output_0";
        let attn = self.attn.forward(tape, p, x, pairs, b, t, i);
        let ghost s1 = tape.seen@;
        let sum_1 = tape.op2(Op::Add, x, attn);
        if p.sums {
            let number: usize = if i == 0 {
                0
            } else {
                2
            };
            tape.record(join_number("attn_encoder/Add_", number, "_output_0"), sum_1);
        }
        let norm_1 = normalize(
            tape,
            self.norm_1,
            sum_1,
            b,
            p.hidden,
            t,
            Ghost(prefix@ + ".norm_layers_1."@ + decimal(i as int) + ".norm"@),
        );
        tape.record(join_number("norm_layers_1.", i, norm), norm_1);
        let mid = tape.op1(Op::SwapLast, norm_1);
        let ghost s2 = tape.seen@;
        let ffn = self.ffn.forward(tape, p, mid, mask, b, t, i);
        let ghost s3 = tape.seen@;
        let sum_2 = tape.op2(Op::Add, mid, ffn);
        if p.sums {
            tape.record(join_number("attn_encoder/Add_", 2 * i + 1, "_output_0"), sum_2);
        }
        let norm_2 = normalize(
            tape,
            self.norm_2,
            sum_2,
            b,
            p.hidden,
            t,
            Ghost(prefix@ + ".norm_layers_2."@ + decimal(i as int) + ".norm"@),
        );
        tape.record(join_number("norm_layers_2.", i, norm), norm_2);
        let ghost s4 = tape.seen@;
        proof {
            let list = encoder_layer_seen(p, i as int, e);
            let l1 = attn_seen(i as int, e.attn);
            let l3 = ffn_seen(i as int, e.ffn);
            assert(s1 == s0 + l1);
            assert(s3 == s2 + l3);
            assert(s4 == s0 + list);
        }
        tape.op1(Op::SwapLast, norm_2)
    }
}

impl AttnEncoder {
    /// Whether all `n` layers are loaded.
    pub open spec fn loaded(&self, tape: &Tape, n: int) -> bool {
        &&& self.layers@.len() == n
        &&& forall|i: int|
            0 <= i < n ==> (#[trigger] self.layers@[i]).loaded(tape, self.sizes, self.prefix@, i)
    }

    /// Loads an encoder of `n` layers from under `prefix`.
    pub fn load(tape: &mut Tape, sizes: AttnSpec, prefix: String, n: usize) -> (r: AttnEncoder)
        requires
            old(tape).wf(),
        ensures
            final(tape).wf(),
            final(tape).extends(old(tape)),
            final(tape).seen@ == old(tape).seen@,
            r.loaded(final(tape), n as int),
            r.sizes == sizes,
            r.prefix == prefix,
    {
        let mut layers: Vec<EncoderLayer> = Vec::new();
        for i in 0..n
            invariant
                tape.wf(),
                tape.extends(old(tape)),
                tape.seen@ == old(tape).seen@,
                layers@.len() == i,
                forall|k: int|
                    0 <= k < i ==> (#[trigger] layers@[k]).loaded(tape, sizes, prefix@, k),
        {
            let ghost before = *tape;
            let layer = EncoderLayer::load(tape, sizes, prefix.as_str(), i);
            proof {
                assert forall|k: int| 0 <= k < i implies (#[trigger] layers@[k]).loaded(
                    tape,
                    sizes,
                    prefix@,
                    k,
                ) by {
                    layers@[k].lemma_stays(&before, tape, sizes, prefix@, k);
                }
            }
            layers.push(layer);
        }
        AttnEncoder { sizes, prefix, layers }
    }

    /// Applies the encoder to `x`, of `[b, hidden, t]`, under a mask of `[b, 1, t]`,
    /// and names what it computes. The result is masked.
    pub fn forward(&self, tape: &mut Tape, x: usize, mask: usize, b: usize, t: usize) -> (r: usize)
        requires
            old(tape).wf(),
            self.sizes.wf(),
            self.loaded(old(tape), self.layers@.len() as int),
            2 * self.layers@.len() <= usize::MAX,
            old(tape).has(x, Shape::D3(b, self.sizes.hidden, t)),
            old(tape).has(mask, Shape::D3(b, 1, t)),
            attention_fits(t as int),
        ensures
            final(tape).wf(),
            final(tape).extends(old(tape)),
            final(tape).seen@ == old(tape).seen@ + encoder_seen(
                self.sizes,
                self.prefix@,
                old(tape).value(x),
                old(tape).value(mask),
                b,
                t,
                self.layers@.len() as int,
            ),
            final(tape).holds(
                r,
                ap2(
                    Op::Mul,
                    encoder_value(
                        self.sizes,
                        self.prefix@,
                        old(tape).value(x),
                        old(tape).value(mask),
                        b,
                        t,
                        self.layers@.len() as int,
                    ),
                    old(tape).value(mask),
                ),
                Shape::D3(b, self.sizes.hidden, t),
            ),
    {
        let ghost start = *tape;
        let ghost p = self.sizes;
        let ghost vx = tape.value(x);
        let ghost vm = tape.value(mask);
        let ghost n = self.layers@.len() as int;
        let pairs = make_attn_mask(tape, mask, b, t);
        let mut h: usize = x;
        assert(start.seen@ + seq![] == start.seen@);
        for i in 0..self.layers.len()
            invariant
                start == *old(tape),
                p == self.sizes,
                p.wf(),
                n == self.layers@.len(),
                2 * n <= usize::MAX,
                tape.wf(),
                tape.extends(&start),
                self.loaded(&start, n),
                start.has(mask, Shape::D3(b, 1, t)),
                vm == start.value(mask),
                tape.holds(pairs, attn_mask(vm, b, t), Shape::D4(b, 1, t, t)),
                attention_fits(t as int),
                tape.seen@ == start.seen@ + encoder_seen(
                    p,
                    self.prefix@,
                    vx,
                    vm,
                    b,
                    t,
                    i as int,
                ),
                tape.holds(
                    h,
                    encoder_value(p, self.prefix@, vx, vm, b, t, i as int),
                    Shape::D3(b, p.hidden, t),
                ),
        {
            let ghost e = encoder_parts(p, self.prefix@, tape.value(h), vm, b, t, i as int);
            let layer = &self.layers[i];
            proof {
                layer.lemma_stays(&start, tape, p, self.prefix@, i as int);
            }
            h = layer.forward(
                tape,
                self.sizes,
                h,
                mask,
                pairs,
                b,
                t,
                i,
                Ghost(self.prefix@),
            );
            proof {
                let had = encoder_seen(p, self.prefix@, vx, vm, b, t, i as int);
                let more = encoder_layer_seen(p, i as int, e);
                assert(start.seen@ + had + more == start.seen@ + (had + more));
            }
        }
        tape.op2(Op::Mul, h, mask)
    }
}

} // verus!
