//! What the text encoder computes, element by element.

use vstd::prelude::*;

use crate::model::candle::attention::{attention_fits, encoder_parts, encoder_value};
use crate::model::candle::attention_laws::{encodes, law_encoder, law_encoder_layer};
use crate::model::candle::cross_laws::{law_embedded, law_style_attention, style_heard};
use crate::model::candle::graph::{ap1, ap2, Expr, Op, Shape};
use crate::model::candle::layer_laws::{
    block_computes, column, law_convnext_block, law_projected, law_stack, normed, tail,
};
use crate::model::candle::layers::{stack_parts, stack_value};
use crate::model::candle::meaning::{
    lemma_meaning1, lemma_meaning2, lemma_meaning3, meaning, row, shrunk, spot3, World,
};
use crate::model::candle::text_encoder::{
    attention, convnext, spte_parts, text_parts, CONVNEXT_ROOT, DILATIONS,
};
use crate::model::candle::values::{plus, shape_of, times, v2, v3, w1, w2, w3};
use crate::strings::decimal;

verus! {

/// Whether the inputs of the text encoder have their shapes.
pub open spec fn text_shaped<R>(
    w: World<R>,
    ids: Expr,
    style: Expr,
    mask: Expr,
    b: usize,
    t: usize,
) -> bool {
    &&& shape_of(w, ids) == Shape::D2(b, t)
    &&& shape_of(w, style) == Shape::D3(b, 50, 256)
    &&& shape_of(w, mask) == Shape::D3(b, 1, t)
    &&& b > 0
    &&& b * t <= usize::MAX
    &&& attention_fits(t as int)
}

/// The learned key of row `l` of a style, whatever the style is.
pub open spec fn style_key<R>(w: World<R>, l: int) -> Seq<R> {
    Seq::new(256, |c: int| w3(w, "tts.ttl.style_encoder.style_token_layer.style_key"@, 0, l, c))
}

/// A projection of layer `idx` that attends to the style, by the matrix of that number.
pub open spec fn style_linear<R>(
    w: World<R>,
    idx: int,
    id: int,
    bias: Seq<char>,
    row: Seq<R>,
    o: int,
) -> R {
    plus(
        w,
        (w.dot)(row, column(w, "onnx::MatMul_"@ + decimal(id), 256, o)),
        w1(w, "tts.ttl.speech_prompted_text_encoder.attention"@ + decimal(idx) + bias, o),
    )
}

/// A layer that attends to the style: the queries come from the text, the keys from the
/// learned keys whatever the style is, and the values from the style.
#[verifier::rlimit(60)]
proof fn lemma_spte<R>(
    w: World<R>,
    idx: int,
    text: Expr,
    style: Expr,
    mask: Expr,
    b: usize,
    t: usize,
    i: int,
    k: int,
    l: int,
    o: int,
)
    requires
        idx == 1 || idx == 2,
        shape_of(w, text) == Shape::D3(b, t, 256),
        shape_of(w, style) == Shape::D3(b, 50, 256),
        shape_of(w, mask) == Shape::D3(b, 1, t),
        0 <= i < b,
        0 <= k < t,
        0 <= l < 50,
        0 <= o < 256,
    ensures
        ({
            let keys = ap1(
                Op::Expand(Shape::D3(b, 50, 256)),
                Expr::Weight(
                    "tts.ttl.style_encoder.style_token_layer.style_key"@,
                    Shape::D3(1, 50, 256),
                ),
            );
            let a = spte_parts(idx, text, keys, style, mask, b, t);
            let id = 3680 + 4 * (idx - 1);
            &&& shape_of(w, a.out) == Shape::D3(b, t, 256)
            &&& v3(w, a.q, i, k, o) == style_linear(
                w,
                idx,
                id,
                ".W_query.linear.bias"@,
                tail(w, text, 256, i, k),
                o,
            )
            &&& v3(w, a.k, i, l, o) == style_linear(
                w,
                idx,
                id + 1,
                ".W_key.linear.bias"@,
                style_key(w, l),
                o,
            )
            &&& v3(w, a.v, i, l, o) == style_linear(
                w,
                idx,
                id + 2,
                ".W_value.linear.bias"@,
                tail(w, style, 256, i, l),
                o,
            )
            &&& v3(w, a.out, i, k, o) == times(
                w,
                style_linear(
                    w,
                    idx,
                    id + 3,
                    ".out_fc.linear.bias"@,
                    Seq::new(
                        256,
                        |c: int| style_heard(w, a.q, a.k, a.v, 50, 128, 256, i, k, c),
                    ),
                    o,
                ),
                v3(w, mask, i, 0, k),
            )
        }),
{
    let table = Expr::Weight(
        "tts.ttl.style_encoder.style_token_layer.style_key"@,
        Shape::D3(1, 50, 256),
    );
    let wide = Op::Expand(Shape::D3(b, 50, 256));
    let keys = ap1(wide, table);
    lemma_meaning1(w, wide, table);
    let a = spte_parts(idx, text, keys, style, mask, b, t);
    let id = 3680 + 4 * (idx - 1);
    let at = "tts.ttl.speech_prompted_text_encoder.attention"@ + decimal(idx);
    law_projected(w, id, at, ".W_query.linear.bias", 256, 256, text, b, t, i, k, o);
    law_projected(w, id + 1, at, ".W_key.linear.bias", 256, 256, keys, b, 50, i, l, o);
    law_projected(w, id + 2, at, ".W_value.linear.bias", 256, 256, style, b, 50, i, l, o);
    assert(tail(w, keys, 256, i, l) =~= style_key(w, l)) by {
        assert forall|c: int| 0 <= c < 256 implies #[trigger] tail(w, keys, 256, i, l)[c]
            == style_key(w, l)[c] by {
            assert(shrunk(Shape::D3(1, 50, 256), spot3(i, l, c)) == spot3(0, l, c));
        }
    }
    let heard = crate::model::candle::cross::style_attention(
        a.q,
        a.k,
        a.v,
        b,
        t,
        50,
        128,
        256,
    );
    let each = Seq::new(256, |c: int| style_heard(w, a.q, a.k, a.v, 50, 128, 256, i, k, c));
    assert forall|c: int| 0 <= c < 256 implies #[trigger] tail(w, heard, 256, i, k)[c]
        == each[c] by {
        law_style_attention(w, a.q, a.k, a.v, b, t, 50, 128, 256, i, k, c);
    }
    assert(tail(w, heard, 256, i, k) =~= each);
    law_style_attention(w, a.q, a.k, a.v, b, t, 50, 128, 256, i, k, o);
    law_projected(w, id + 3, at, ".out_fc.linear.bias", 256, 256, heard, b, t, i, k, o);
    let out = crate::model::candle::cross::projected(
        id + 3,
        at,
        ".out_fc.linear.bias",
        256,
        256,
        heard,
    );
    let turned = ap1(Op::SwapLast, mask);
    lemma_meaning1(w, Op::SwapLast, mask);
    lemma_meaning2(w, Op::Mul, out, turned);
    assert(shrunk(Shape::D3(b, t, 256), spot3(i, k, o)) == spot3(i, k, o));
    assert(shrunk(Shape::D3(b, t, 1), spot3(i, k, o)) == spot3(i, k, 0));
}

// ---------------------------------------------------------------------------
// The trunk
// ---------------------------------------------------------------------------

/// How far apart the kernels of block `j` reach.
pub open spec fn text_dilation(j: int) -> int {
    if j < 2 {
        1
    } else if j < 4 {
        2
    } else {
        4
    }
}

/// The sizes of the stack of blocks fit its input.
proof fn lemma_text_stack<R>(
    w: World<R>,
    ids: Expr,
    style: Expr,
    mask: Expr,
    b: usize,
    t: usize,
    n: int,
)
    requires
        text_shaped(w, ids, style, mask, b, t),
        0 <= n <= 6,
    ensures
        ({
            let p = text_parts(ids, style, mask, b, t);
            let before = stack_value(
                convnext(),
                CONVNEXT_ROOT@,
                DILATIONS@,
                p.start,
                Some(mask),
                n,
            );
            &&& shape_of(w, p.start) == Shape::D3(b, 256, t)
            &&& shape_of(w, before) == Shape::D3(b, 256, t)
            &&& t + 16 <= usize::MAX
        }),
{
    let p = text_parts(ids, style, mask, b, t);
    let table = Expr::Weight(
        "tts.ttl.text_encoder.text_embedder.char_embedder.weight"@,
        Shape::D2(8322, 256),
    );
    law_embedded(w, table, ids, mask, 8322, b, t, 256, 0, 0, 0);
    assert(t + 20 <= usize::MAX) by (nonlinear_arith)
        requires
            2 * t * t + t <= usize::MAX,
            usize::MAX >= 65535,
    ;
    assert forall|j: int| 0 <= j < DILATIONS@.len() implies #[trigger] DILATIONS@[j] > 0 && t
        + DILATIONS@[j] * (convnext().kernel - 1) <= usize::MAX by {
        assert(0 < DILATIONS@[j] <= 4);
    }
    law_stack(w, convnext(), CONVNEXT_ROOT@, DILATIONS@, p.start, Some(mask), b, t, n);
}

/// The text encoder starts from the embeddings of the ids. Six blocks of 256 channels with
/// kernels of five steps, which reach as far ahead as behind, act on them.
pub proof fn law_text_blocks<R>(
    w: World<R>,
    ids: Expr,
    style: Expr,
    mask: Expr,
    b: usize,
    t: usize,
    j: int,
    i: int,
    c: int,
    k: int,
)
    requires
        text_shaped(w, ids, style, mask, b, t),
        0 <= j < 6,
        0 <= i < b,
        0 <= c < 256,
        0 <= k < t,
    ensures
        ({
            let p = text_parts(ids, style, mask, b, t);
            let root = "tts.ttl.text_encoder.convnext.convnext."@;
            let before = stack_value(convnext(), root, DILATIONS@, p.start, Some(mask), j);
            let after = stack_value(convnext(), root, DILATIONS@, p.start, Some(mask), j + 1);
            let a = stack_parts(convnext(), root, DILATIONS@, p.start, Some(mask), j);
            &&& v3(w, p.start, i, c, k) == times(
                w,
                w2(
                    w,
                    "tts.ttl.text_encoder.text_embedder.char_embedder.weight"@,
                    (w.index)(v2(w, ids, i, k)),
                    c,
                ),
                v3(w, mask, i, 0, k),
            )
            &&& j == 0 ==> before == p.start
            &&& after == a.out
            &&& j == 5 ==> p.convnext == after
            &&& block_computes(
                w,
                a,
                root + decimal(j),
                ".dwconv"@,
                256,
                1024,
                5,
                text_dilation(j),
                2 * text_dilation(j),
                before,
                Some(mask),
                t as int,
                i,
                c,
                k,
            )
        }),
{
    let p = text_parts(ids, style, mask, b, t);
    let root = "tts.ttl.text_encoder.convnext.convnext."@;
    let table = Expr::Weight(
        "tts.ttl.text_encoder.text_embedder.char_embedder.weight"@,
        Shape::D2(8322, 256),
    );
    law_embedded(w, table, ids, mask, 8322, b, t, 256, i, c, k);
    lemma_text_stack(w, ids, style, mask, b, t, j);
    let before = stack_value(convnext(), root, DILATIONS@, p.start, Some(mask), j);
    assert(DILATIONS@[j] == text_dilation(j));
    law_convnext_block(
        w,
        convnext(),
        root + decimal(j),
        DILATIONS@[j],
        before,
        Some(mask),
        b,
        t,
        i,
        c,
        k,
    );
}

/// Four layers of self-attention with four heads of 64 channels follow. Their result,
/// masked, is added to that of the blocks, and masked again.
pub proof fn law_text_attention<R>(
    w: World<R>,
    ids: Expr,
    style: Expr,
    mask: Expr,
    b: usize,
    t: usize,
    j: int,
    i: int,
    c: int,
    k: int,
)
    requires
        text_shaped(w, ids, style, mask, b, t),
        0 <= j < 4,
        0 <= i < b,
        0 <= c < 256,
        0 <= k < t,
    ensures
        ({
            let p = text_parts(ids, style, mask, b, t);
            let root = "tts.ttl.text_encoder.attn_encoder"@;
            let before = encoder_value(attention(), root, p.convnext, mask, b, t, j);
            let after = encoder_value(attention(), root, p.convnext, mask, b, t, j + 1);
            let e = encoder_parts(attention(), root, before, mask, b, t, j);
            &&& attention().heads == 4 && attention().head_dim == 64
            &&& j == 0 ==> before == p.convnext
            &&& after == e.out
            &&& encodes(w, e, root, j, 256, 1024, before, mask, i, c, k)
            &&& j == 3 ==> {
                &&& v3(w, p.sum, i, c, k) == plus(
                    w,
                    v3(w, p.convnext, i, c, k),
                    times(w, v3(w, after, i, c, k), v3(w, mask, i, 0, k)),
                )
                &&& v3(w, p.proj_out, i, c, k) == times(
                    w,
                    v3(w, p.sum, i, c, k),
                    v3(w, mask, i, 0, k),
                )
            }
        }),
{
    let p = text_parts(ids, style, mask, b, t);
    let root = "tts.ttl.text_encoder.attn_encoder"@;
    lemma_text_stack(w, ids, style, mask, b, t, 6);
    law_encoder(w, attention(), root, p.convnext, mask, b, t, j);
    law_encoder(w, attention(), root, p.convnext, mask, b, t, j + 1);
    let before = encoder_value(attention(), root, p.convnext, mask, b, t, j);
    law_encoder_layer(w, attention(), root, before, mask, b, t, j, i, c, k);
    if j == 3 {
        lemma_text_end(w, ids, style, mask, b, t, i, c, k);
    }
}

/// The end of the trunk.
proof fn lemma_text_end<R>(
    w: World<R>,
    ids: Expr,
    style: Expr,
    mask: Expr,
    b: usize,
    t: usize,
    i: int,
    c: int,
    k: int,
)
    requires
        text_shaped(w, ids, style, mask, b, t),
        0 <= i < b,
        0 <= c < 256,
        0 <= k < t,
    ensures
        ({
            let p = text_parts(ids, style, mask, b, t);
            let root = "tts.ttl.text_encoder.attn_encoder"@;
            let after = encoder_value(attention(), root, p.convnext, mask, b, t, 4);
            &&& shape_of(w, p.proj_out) == Shape::D3(b, 256, t)
            &&& v3(w, p.sum, i, c, k) == plus(
                w,
                v3(w, p.convnext, i, c, k),
                times(w, v3(w, after, i, c, k), v3(w, mask, i, 0, k)),
            )
            &&& v3(w, p.proj_out, i, c, k) == times(
                w,
                v3(w, p.sum, i, c, k),
                v3(w, mask, i, 0, k),
            )
        }),
{
    let p = text_parts(ids, style, mask, b, t);
    let root = "tts.ttl.text_encoder.attn_encoder"@;
    lemma_text_stack(w, ids, style, mask, b, t, 6);
    law_encoder(w, attention(), root, p.convnext, mask, b, t, 4);
    let after = encoder_value(attention(), root, p.convnext, mask, b, t, 4);
    let kept = ap2(Op::Mul, after, mask);
    lemma_meaning2(w, Op::Mul, after, mask);
    lemma_meaning2(w, Op::Add, p.convnext, kept);
    lemma_meaning2(w, Op::Mul, p.sum, mask);
    assert(shrunk(Shape::D3(b, 256, t), spot3(i, c, k)) == spot3(i, c, k));
    assert(shrunk(Shape::D3(b, 1, t), spot3(i, c, k)) == spot3(i, 0, k));
}

// ---------------------------------------------------------------------------
// The style
// ---------------------------------------------------------------------------

/// The text hears the style twice. In both layers the values come from the style, and the
/// keys from the learned keys whatever the style is; the first takes its queries from the
/// text, the second from the first sum. Both results are added to the same text; the
/// second sum is normalized and masked, and is the embedding.
#[verifier::rlimit(60)]
pub proof fn law_text_hears_style<R>(
    w: World<R>,
    ids: Expr,
    style: Expr,
    mask: Expr,
    b: usize,
    t: usize,
    i: int,
    k: int,
    l: int,
    o: int,
)
    requires
        text_shaped(w, ids, style, mask, b, t),
        0 <= i < b,
        0 <= k < t,
        0 <= l < 50,
        0 <= o < 256,
    ensures
        ({
            let p = text_parts(ids, style, mask, b, t);
            let a1 = p.prompted.attention1;
            let a2 = p.prompted.attention2;
            let q = ".W_query.linear.bias"@;
            let key = ".W_key.linear.bias"@;
            let value = ".W_value.linear.bias"@;
            let out = ".out_fc.linear.bias"@;
            let text = Seq::new(256, |c: int| v3(w, p.proj_out, i, c, k));
            let valid = v3(w, mask, i, 0, k);
            // The values are made from the style.
            &&& v3(w, a1.v, i, l, o) == style_linear(w, 1, 3682, value, tail(w, style, 256, i, l), o)
            &&& v3(w, a2.v, i, l, o) == style_linear(w, 2, 3686, value, tail(w, style, 256, i, l), o)
            // The keys are not.
            &&& v3(w, a1.k, i, l, o) == style_linear(w, 1, 3681, key, style_key(w, l), o)
            &&& v3(w, a2.k, i, l, o) == style_linear(w, 2, 3685, key, style_key(w, l), o)
            // The text asks.
            &&& v3(w, a1.q, i, k, o) == style_linear(w, 1, 3680, q, text, o)
            &&& v3(w, a2.q, i, k, o) == style_linear(
                w,
                2,
                3684,
                q,
                tail(w, p.prompted.sum_1, 256, i, k),
                o,
            )
            // What is heard is added to the text.
            &&& v3(w, a1.out, i, k, o) == times(
                w,
                style_linear(
                    w,
                    1,
                    3683,
                    out,
                    Seq::new(
                        256,
                        |c: int| style_heard(w, a1.q, a1.k, a1.v, 50, 128, 256, i, k, c),
                    ),
                    o,
                ),
                valid,
            )
            &&& v3(w, a2.out, i, k, o) == times(
                w,
                style_linear(
                    w,
                    2,
                    3687,
                    out,
                    Seq::new(
                        256,
                        |c: int| style_heard(w, a2.q, a2.k, a2.v, 50, 128, 256, i, k, c),
                    ),
                    o,
                ),
                valid,
            )
            &&& v3(w, p.prompted.sum_1, i, k, o) == plus(
                w,
                v3(w, p.proj_out, i, o, k),
                v3(w, a1.out, i, k, o),
            )
            &&& v3(w, p.prompted.sum_2, i, k, o) == plus(
                w,
                v3(w, p.proj_out, i, o, k),
                v3(w, a2.out, i, k, o),
            )
            &&& v3(w, p.prompted.norm, i, k, o) == normed(
                w,
                tail(w, p.prompted.sum_2, 256, i, k),
                "tts.ttl.speech_prompted_text_encoder.norm.norm"@,
                o,
            )
            &&& shape_of(w, p.prompted.text_emb) == Shape::D3(b, 256, t)
            &&& v3(w, p.prompted.text_emb, i, o, k) == times(
                w,
                v3(w, p.prompted.norm, i, k, o),
                valid,
            )
        }),
{
    let p = text_parts(ids, style, mask, b, t);
    let r = p.prompted;
    lemma_text_end(w, ids, style, mask, b, t, i, o, k);
    let text = ap1(Op::SwapLast, p.proj_out);
    lemma_meaning1(w, Op::SwapLast, p.proj_out);
    lemma_spte(w, 1, text, style, mask, b, t, i, k, l, o);
    assert(tail(w, text, 256, i, k) =~= Seq::new(256, |c: int| v3(w, p.proj_out, i, c, k)));
    lemma_meaning2(w, Op::Add, text, r.attention1.out);
    assert(shape_of(w, r.sum_1) == Shape::D3(b, t, 256));
    lemma_spte(w, 2, r.sum_1, style, mask, b, t, i, k, l, o);
    lemma_meaning2(w, Op::Add, text, r.attention2.out);
    assert(shape_of(w, r.sum_2) == Shape::D3(b, t, 256));
    assert(shrunk(Shape::D3(b, t, 256), spot3(i, k, o)) == spot3(i, k, o));
    lemma_text_norm(w, r.sum_2, mask, b, t, i, k, o);
}

/// The norm and the mask at the end.
proof fn lemma_text_norm<R>(
    w: World<R>,
    sum: Expr,
    mask: Expr,
    b: usize,
    t: usize,
    i: int,
    k: int,
    o: int,
)
    requires
        shape_of(w, sum) == Shape::D3(b, t, 256),
        shape_of(w, mask) == Shape::D3(b, 1, t),
        0 <= i < b,
        0 <= k < t,
        0 <= o < 256,
    ensures
        ({
            let at = "tts.ttl.speech_prompted_text_encoder.norm.norm"@;
            let norm = crate::model::candle::graph::ap3(
                Op::LayerNorm,
                sum,
                Expr::Weight(
                    "tts.ttl.speech_prompted_text_encoder.norm.norm.weight"@,
                    Shape::D1(256),
                ),
                Expr::Weight(
                    "tts.ttl.speech_prompted_text_encoder.norm.norm.bias"@,
                    Shape::D1(256),
                ),
            );
            let out = ap2(Op::Mul, ap1(Op::SwapLast, norm), mask);
            &&& v3(w, norm, i, k, o) == normed(w, tail(w, sum, 256, i, k), at, o)
            &&& shape_of(w, out) == Shape::D3(b, 256, t)
            &&& v3(w, out, i, o, k) == times(w, v3(w, norm, i, k, o), v3(w, mask, i, 0, k))
        }),
{
    let at = "tts.ttl.speech_prompted_text_encoder.norm.norm"@;
    let name = "tts.ttl.speech_prompted_text_encoder.norm.norm.weight"@;
    let bias = "tts.ttl.speech_prompted_text_encoder.norm.norm.bias"@;
    reveal_strlit("tts.ttl.speech_prompted_text_encoder.norm.norm");
    reveal_strlit("tts.ttl.speech_prompted_text_encoder.norm.norm.weight");
    reveal_strlit("tts.ttl.speech_prompted_text_encoder.norm.norm.bias");
    reveal_strlit(".weight");
    reveal_strlit(".bias");
    assert(at + ".weight"@ =~= name);
    assert(at + ".bias"@ =~= bias);
    let scale = Expr::Weight(name, Shape::D1(256));
    let shift = Expr::Weight(bias, Shape::D1(256));
    let norm = crate::model::candle::graph::ap3(Op::LayerNorm, sum, scale, shift);
    lemma_meaning3(w, Op::LayerNorm, sum, scale, shift);
    assert(row(meaning(w, sum), spot3(i, k, o)) =~= tail(w, sum, 256, i, k));
    let turned = ap1(Op::SwapLast, norm);
    lemma_meaning1(w, Op::SwapLast, norm);
    lemma_meaning2(w, Op::Mul, turned, mask);
    assert(shrunk(Shape::D3(b, 256, t), spot3(i, o, k)) == spot3(i, o, k));
    assert(shrunk(Shape::D3(b, 1, t), spot3(i, o, k)) == spot3(i, 0, k));
}

/// Another style leaves the queries of the first layer and the keys of both as they are,
/// and what is averaged is made from the other style alone.
pub proof fn law_style_replaced<R>(
    w: World<R>,
    ids: Expr,
    style: Expr,
    other: Expr,
    mask: Expr,
    b: usize,
    t: usize,
    i: int,
    l: int,
    o: int,
)
    requires
        text_shaped(w, ids, style, mask, b, t),
        text_shaped(w, ids, other, mask, b, t),
        0 <= i < b,
        0 <= l < 50,
        0 <= o < 256,
    ensures
        ({
            let p = text_parts(ids, style, mask, b, t);
            let q = text_parts(ids, other, mask, b, t);
            let value = ".W_value.linear.bias"@;
            &&& p.proj_out == q.proj_out
            &&& p.prompted.attention1.q == q.prompted.attention1.q
            &&& p.prompted.attention1.k == q.prompted.attention1.k
            &&& p.prompted.attention2.k == q.prompted.attention2.k
            &&& v3(w, q.prompted.attention1.v, i, l, o) == style_linear(
                w,
                1,
                3682,
                value,
                tail(w, other, 256, i, l),
                o,
            )
            &&& v3(w, q.prompted.attention2.v, i, l, o) == style_linear(
                w,
                2,
                3686,
                value,
                tail(w, other, 256, i, l),
                o,
            )
        }),
{
    law_text_hears_style(w, ids, other, mask, b, t, i, 0, l, o);
}

} // verus!
