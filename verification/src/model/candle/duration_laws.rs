//! What the duration predictor computes, element by element.

use vstd::prelude::*;

use crate::model::candle::attention::{attention_fits, encoder_parts, encoder_value};
use crate::model::candle::attention_laws::{
    encodes, law_encoder, law_encoder_layer, lemma_below, lemma_parts,
};
use crate::model::candle::cross_laws::law_embedded;
use crate::model::candle::duration_predictor::{
    attention, convnext, duration_parts, CONVNEXT_ROOT, DILATIONS,
};
use crate::model::candle::graph::{ap1, ap2, Expr, Op, Shape};
use crate::model::candle::layer_laws::{
    block_computes, channels, kernel_row, law_convnext_block, law_stack, lemma_plain_conv,
};
use crate::model::candle::layers::{embedded, stack_parts, stack_value};
use crate::model::candle::meaning::{
    back, lemma_meaning1, lemma_meaning2, lemma_meaning3, meaning, number, place, row, shrunk,
    spot1, spot2, spot3, World,
};
use crate::model::candle::values::{numbers, plus, shape_of, times, v1, v2, v3, w1, w2, w3};
use crate::strings::decimal;

verus! {

/// Whether the inputs of the duration predictor have their shapes.
pub open spec fn duration_shaped<R>(
    w: World<R>,
    ids: Expr,
    style: Expr,
    mask: Expr,
    b: usize,
    t: usize,
) -> bool {
    &&& shape_of(w, ids) == Shape::D2(b, t)
    &&& shape_of(w, style) == Shape::D3(b, 8, 16)
    &&& shape_of(w, mask) == Shape::D3(b, 1, t)
    &&& b > 0
    &&& t > 0
    &&& b * t <= usize::MAX
    &&& attention_fits(t + 1)
}

/// What fits beside `t` steps.
proof fn lemma_space(t: int)
    requires
        attention_fits(t + 1),
        t > 0,
    ensures
        t + 20 <= usize::MAX,
{
    assert(t + 20 <= usize::MAX) by (nonlinear_arith)
        requires
            2 * (t + 1) * (t + 1) + (t + 1) <= usize::MAX,
            t > 0,
            usize::MAX >= 65535,
    ;
}

/// The sentence token and a valid step for it stand in front; behind them stand the
/// embeddings of the ids and their mask.
#[verifier::rlimit(40)]
pub proof fn law_sentence<R>(
    w: World<R>,
    ids: Expr,
    style: Expr,
    mask: Expr,
    b: usize,
    t: usize,
    i: int,
    c: int,
    k: int,
)
    requires
        duration_shaped(w, ids, style, mask, b, t),
        0 <= i < b,
        0 <= c < 64,
        0 <= k <= t,
    ensures
        ({
            let p = duration_parts(ids, style, mask, b, t);
            let n = (t + 1) as usize;
            &&& shape_of(w, p.mask) == Shape::D3(b, 1, n)
            &&& shape_of(w, p.start) == Shape::D3(b, 64, n)
            &&& v3(w, p.mask, i, 0, k) == if k == 0 {
                (w.whole)(1)
            } else {
                v3(w, mask, i, 0, k - 1)
            }
            &&& v3(w, p.start, i, c, k) == times(
                w,
                if k == 0 {
                    w3(w, "tts.dp.sentence_encoder.sentence_token"@, 0, c, 0)
                } else {
                    times(
                        w,
                        w2(
                            w,
                            "tts.dp.sentence_encoder.text_embedder.char_embedder.weight"@,
                            (w.index)(v2(w, ids, i, k - 1)),
                            c,
                        ),
                        v3(w, mask, i, 0, k - 1),
                    )
                },
                v3(w, p.mask, i, 0, k),
            )
        }),
{
    lemma_space(t as int);
    let n = (t + 1) as usize;
    let table = Expr::Weight(
        "tts.dp.sentence_encoder.text_embedder.char_embedder.weight"@,
        Shape::D2(8322, 64),
    );
    let token = Expr::Weight("tts.dp.sentence_encoder.sentence_token"@, Shape::D3(1, 64, 1));
    let wide = Op::Expand(Shape::D3(b, 64, 1));
    let front = ap1(wide, token);
    let text = embedded(table, ids, mask, b, t, 64);
    let join = Op::Cat { dim: 2 };
    let mixed = ap2(join, front, text);
    let ones = Expr::Ones(Shape::D3(b, 1, 1));
    let long = ap2(join, ones, mask);
    law_embedded(w, table, ids, mask, 8322, b, t, 64, i, c, if k == 0 { 0 } else { k - 1 });
    lemma_meaning1(w, wide, token);
    lemma_meaning2(w, join, front, text);
    lemma_meaning2(w, join, ones, mask);
    lemma_meaning2(w, Op::Mul, mixed, long);
    assert(shape_of(w, long) == Shape::D3(b, 1, n));
    assert(shape_of(w, mixed) == Shape::D3(b, 64, n));
    assert(shrunk(Shape::D3(b, 64, n), spot3(i, c, k)) == spot3(i, c, k));
    assert(shrunk(Shape::D3(b, 1, n), spot3(i, c, k)) == spot3(i, 0, k));
    assert(shrunk(Shape::D3(1, 64, 1), spot3(i, c, 0)) == spot3(0, c, 0));
    assert(v3(w, mixed, i, c, k) == if k == 0 {
        v3(w, front, i, c, 0)
    } else {
        v3(w, text, i, c, k - 1)
    });
}

/// The sizes of the stack of blocks fit its input.
proof fn lemma_duration_stack<R>(
    w: World<R>,
    ids: Expr,
    style: Expr,
    mask: Expr,
    b: usize,
    t: usize,
    n: int,
)
    requires
        duration_shaped(w, ids, style, mask, b, t),
        0 <= n <= 6,
    ensures
        ({
            let p = duration_parts(ids, style, mask, b, t);
            shape_of(
                w,
                stack_value(convnext(), CONVNEXT_ROOT@, DILATIONS@, p.start, Some(p.mask), n),
            ) == Shape::D3(b, 64, (t + 1) as usize)
        }),
{
    let p = duration_parts(ids, style, mask, b, t);
    lemma_space(t as int);
    law_sentence(w, ids, style, mask, b, t, 0, 0, 0);
    let m = (t + 1) as usize;
    assert forall|j: int| 0 <= j < DILATIONS@.len() implies #[trigger] DILATIONS@[j] > 0 && m
        + DILATIONS@[j] * (convnext().kernel - 1) <= usize::MAX by {
        assert(DILATIONS@[j] == 1);
    }
    law_stack(w, convnext(), CONVNEXT_ROOT@, DILATIONS@, p.start, Some(p.mask), b, m, n);
}

/// Six blocks of 64 channels with kernels of five steps, which reach as far ahead as
/// behind, act on the sentence.
pub proof fn law_duration_blocks<R>(
    w: World<R>,
    ids: Expr,
    style: Expr,
    mask: Expr,
    b: usize,
    t: usize,
    j: int,
    i: int,
    c: int,
    k: int,
)
    requires
        duration_shaped(w, ids, style, mask, b, t),
        0 <= j < 6,
        0 <= i < b,
        0 <= c < 64,
        0 <= k <= t,
    ensures
        ({
            let p = duration_parts(ids, style, mask, b, t);
            let root = "tts.dp.sentence_encoder.convnext.convnext."@;
            let before = stack_value(convnext(), root, DILATIONS@, p.start, Some(p.mask), j);
            let after = stack_value(convnext(), root, DILATIONS@, p.start, Some(p.mask), j + 1);
            let a = stack_parts(convnext(), root, DILATIONS@, p.start, Some(p.mask), j);
            &&& j == 0 ==> before == p.start
            &&& after == a.out
            &&& j == 5 ==> p.convnext == after
            &&& block_computes(
                w,
                a,
                root + decimal(j),
                ".dwconv"@,
                64,
                256,
                5,
                1,
                2,
                before,
                Some(p.mask),
                t + 1,
                i,
                c,
                k,
            )
        }),
{
    let p = duration_parts(ids, style, mask, b, t);
    let root = "tts.dp.sentence_encoder.convnext.convnext."@;
    lemma_space(t as int);
    law_sentence(w, ids, style, mask, b, t, i, c, k);
    lemma_duration_stack(w, ids, style, mask, b, t, j);
    let before = stack_value(convnext(), root, DILATIONS@, p.start, Some(p.mask), j);
    assert(DILATIONS@[j] == 1);
    law_convnext_block(
        w,
        convnext(),
        root + decimal(j),
        1,
        before,
        Some(p.mask),
        b,
        (t + 1) as usize,
        i,
        c,
        k,
    );
}

/// Two layers of self-attention with two heads of 32 channels follow. Their result,
/// masked, is added to that of the blocks.
pub proof fn law_duration_attention<R>(
    w: World<R>,
    ids: Expr,
    style: Expr,
    mask: Expr,
    b: usize,
    t: usize,
    j: int,
    i: int,
    c: int,
    k: int,
)
    requires
        duration_shaped(w, ids, style, mask, b, t),
        0 <= j < 2,
        0 <= i < b,
        0 <= c < 64,
        0 <= k <= t,
    ensures
        ({
            let p = duration_parts(ids, style, mask, b, t);
            let n = (t + 1) as usize;
            let root = "tts.dp.sentence_encoder.attn_encoder"@;
            let before = encoder_value(attention(), root, p.convnext, p.mask, b, n, j);
            let after = encoder_value(attention(), root, p.convnext, p.mask, b, n, j + 1);
            let e = encoder_parts(attention(), root, before, p.mask, b, n, j);
            &&& attention().heads == 2 && attention().head_dim == 32
            &&& j == 0 ==> before == p.convnext
            &&& after == e.out
            &&& encodes(w, e, root, j, 64, 256, before, p.mask, i, c, k)
            &&& j == 1 ==> v3(w, p.sum, i, c, k) == plus(
                w,
                v3(w, p.convnext, i, c, k),
                times(w, v3(w, after, i, c, k), v3(w, p.mask, i, 0, k)),
            )
        }),
{
    let p = duration_parts(ids, style, mask, b, t);
    let n = (t + 1) as usize;
    let root = "tts.dp.sentence_encoder.attn_encoder"@;
    lemma_space(t as int);
    law_sentence(w, ids, style, mask, b, t, i, c, k);
    lemma_duration_stack(w, ids, style, mask, b, t, 6);
    law_encoder(w, attention(), root, p.convnext, p.mask, b, n, j);
    law_encoder(w, attention(), root, p.convnext, p.mask, b, n, j + 1);
    let before = encoder_value(attention(), root, p.convnext, p.mask, b, n, j);
    law_encoder_layer(w, attention(), root, before, p.mask, b, n, j, i, c, k);
    if j == 1 {
        lemma_duration_sum(w, ids, style, mask, b, t, i, c, k);
    }
}

/// The sum of the blocks and of the attention.
proof fn lemma_duration_sum<R>(
    w: World<R>,
    ids: Expr,
    style: Expr,
    mask: Expr,
    b: usize,
    t: usize,
    i: int,
    c: int,
    k: int,
)
    requires
        duration_shaped(w, ids, style, mask, b, t),
        0 <= i < b,
        0 <= c < 64,
        0 <= k <= t,
    ensures
        ({
            let p = duration_parts(ids, style, mask, b, t);
            let n = (t + 1) as usize;
            let root = "tts.dp.sentence_encoder.attn_encoder"@;
            let after = encoder_value(attention(), root, p.convnext, p.mask, b, n, 2);
            &&& shape_of(w, p.sum) == Shape::D3(b, 64, n)
            &&& v3(w, p.sum, i, c, k) == plus(
                w,
                v3(w, p.convnext, i, c, k),
                times(w, v3(w, after, i, c, k), v3(w, p.mask, i, 0, k)),
            )
        }),
{
    let p = duration_parts(ids, style, mask, b, t);
    let n = (t + 1) as usize;
    let root = "tts.dp.sentence_encoder.attn_encoder"@;
    lemma_space(t as int);
    law_sentence(w, ids, style, mask, b, t, i, c, k);
    lemma_duration_stack(w, ids, style, mask, b, t, 6);
    law_encoder(w, attention(), root, p.convnext, p.mask, b, n, 2);
    let after = encoder_value(attention(), root, p.convnext, p.mask, b, n, 2);
    let kept = ap2(Op::Mul, after, p.mask);
    lemma_meaning2(w, Op::Mul, after, p.mask);
    lemma_meaning2(w, Op::Add, p.convnext, kept);
    assert(shrunk(Shape::D3(b, 64, n), spot3(i, c, k)) == spot3(i, c, k));
    assert(shrunk(Shape::D3(b, 1, n), spot3(i, c, k)) == spot3(i, 0, k));
}

/// The row of numbers that a duration is predicted from: the 64 channels of the sentence
/// token's step, and the 128 numbers of the style, row after row.
pub open spec fn evidence<R>(w: World<R>, proj_out: Expr, style: Expr, i: int) -> Seq<R> {
    Seq::new(
        192,
        |c: int|
            if c < 64 {
                v3(w, proj_out, i, c, 0)
            } else {
                v3(w, style, i, (c - 64) / 16, (c - 64) % 16)
            },
    )
}

/// The duration is predicted from the first step of the sentence and from the style, by
/// two layers with a PReLU between them, and is the exponential of the last.
#[verifier::rlimit(60)]
pub proof fn law_duration_is_exponential<R>(
    w: World<R>,
    ids: Expr,
    style: Expr,
    mask: Expr,
    b: usize,
    t: usize,
    i: int,
    o: int,
)
    requires
        duration_shaped(w, ids, style, mask, b, t),
        0 <= i < b,
        0 <= o < 128,
    ensures
        ({
            let p = duration_parts(ids, style, mask, b, t);
            let q = p.predicted;
            &&& forall|c: int|
                0 <= c < 64 ==> #[trigger] v3(w, q.proj_out, i, c, 0) == (w.dot)(
                    channels(w, p.sum, 64, i, 0),
                    kernel_row(w, "tts.dp.sentence_encoder.proj_out.net.weight"@, 64, c),
                )
            &&& v2(w, q.layer0, i, o) == plus(
                w,
                (w.dot)(
                    evidence(w, q.proj_out, style, i),
                    Seq::new(192, |c: int| w2(w, "tts.dp.predictor.layers.0.weight"@, o, c)),
                ),
                w1(w, "tts.dp.predictor.layers.0.bias"@, o),
            )
            &&& v2(w, q.act, i, o) == (w.paired)(
                Op::PRelu,
                v2(w, q.layer0, i, o),
                w1(w, "tts.dp.predictor.activation.weight"@, 0),
            )
            &&& v2(w, q.layer1, i, 0) == plus(
                w,
                (w.dot)(
                    Seq::new(128, |c: int| v2(w, q.act, i, c)),
                    Seq::new(128, |c: int| w2(w, "tts.dp.predictor.layers.1.weight"@, 0, c)),
                ),
                w1(w, "tts.dp.predictor.layers.1.bias"@, 0),
            )
            &&& shape_of(w, q.duration) == Shape::D1(b)
            &&& v1(w, q.duration, i) == (w.alone)(Op::Exp, v2(w, q.layer1, i, 0))
        }),
{
    let p = duration_parts(ids, style, mask, b, t);
    let q = p.predicted;
    let n = (t + 1) as usize;
    lemma_space(t as int);
    lemma_duration_sum(w, ids, style, mask, b, t, i, 0, 0);
    let first = Op::Narrow { dim: 2, start: 0, len: 1 };
    let h = ap1(first, p.sum);
    lemma_meaning1(w, first, p.sum);
    let name = "tts.dp.sentence_encoder.proj_out.net.weight"@;
    assert(channels(w, h, 64, i, 0) =~= channels(w, p.sum, 64, i, 0));
    assert forall|c: int| 0 <= c < 64 implies #[trigger] v3(w, q.proj_out, i, c, 0) == (w.dot)(
        channels(w, p.sum, 64, i, 0),
        kernel_row(w, name, 64, c),
    ) by {
        lemma_plain_conv(w, h, name, b, 64, 64, 1, i, c, 0);
    }
    lemma_plain_conv(w, h, name, b, 64, 64, 1, i, 0, 0);
    let to_row = Op::Reshape(Shape::D2(b, 64));
    let to_flat = Op::Reshape(Shape::D2(b, 128));
    let join = Op::Cat { dim: 1 };
    let left = ap1(to_row, q.proj_out);
    let right = ap1(to_flat, style);
    let both = ap2(join, left, right);
    lemma_meaning1(w, to_row, q.proj_out);
    lemma_meaning1(w, to_flat, style);
    lemma_meaning2(w, join, left, right);
    let w0 = Expr::Weight("tts.dp.predictor.layers.0.weight"@, Shape::D2(128, 192));
    let b0 = Expr::Weight("tts.dp.predictor.layers.0.bias"@, Shape::D1(128));
    let alpha = Expr::Weight("tts.dp.predictor.activation.weight"@, Shape::D1(1));
    let w1_ = Expr::Weight("tts.dp.predictor.layers.1.weight"@, Shape::D2(1, 128));
    let b1 = Expr::Weight("tts.dp.predictor.layers.1.bias"@, Shape::D1(1));
    lemma_meaning3(w, Op::Linear, both, w0, b0);
    lemma_meaning2(w, Op::PRelu, q.layer0, alpha);
    lemma_meaning3(w, Op::Linear, q.act, w1_, b1);
    let up = ap1(Op::Exp, q.layer1);
    let line = Op::Reshape(Shape::D1(b));
    lemma_meaning1(w, Op::Exp, q.layer1);
    lemma_meaning1(w, line, up);
    let e = row(meaning(w, both), spot2(i, o));
    let f = evidence(w, q.proj_out, style, i);
    assert(shape_of(w, both) == Shape::D2(b, 192));
    assert forall|c: int| 0 <= c < 192 implies #[trigger] e[c] == f[c] by {
        if c < 64 {
            lemma_row_place(b, 64, i, c);
            assert(e[c] == v2(w, left, i, c));
        } else {
            lemma_style_place(b, i, c - 64);
            assert(e[c] == v2(w, right, i, c - 64));
        }
    }
    assert(e =~= f);
    let m0 = meaning(w, w0);
    assert(Seq::new(192, |x: int| (m0.at)(spot2(o, x))) =~= Seq::new(
        192,
        |c: int| w2(w, "tts.dp.predictor.layers.0.weight"@, o, c),
    ));
    let m1 = meaning(w, w1_);
    assert(Seq::new(128, |x: int| (m1.at)(spot2(0, x))) =~= Seq::new(
        128,
        |c: int| w2(w, "tts.dp.predictor.layers.1.weight"@, 0, c),
    ));
    assert(row(meaning(w, q.act), spot2(i, 0)) =~= Seq::new(128, |c: int| v2(w, q.act, i, c)));
    lemma_single_place(b, i);
}

/// A column of single steps read as a row.
proof fn lemma_row_place(b: usize, n: usize, i: int, c: int)
    requires
        0 <= i < b,
        0 <= c < n,
    ensures
        place(Shape::D3(b, n, 1), number(Shape::D2(b, n), spot2(i, c))) == spot3(i, c, 0),
{
    let two = Shape::D2(b, n);
    let three = Shape::D3(b, n, 1);
    assert(back(two, 0) == n && back(two, 1) == b && back(two, 2) == 1);
    assert(back(three, 0) == 1 && back(three, 1) == n && back(three, 2) == b);
    let at = i * n + c;
    assert(0 * b == 0) by (nonlinear_arith);
    assert(number(two, spot2(i, c)) == at);
    lemma_parts(at, n as int, i, c);
    lemma_below(i, b as int);
}

/// A style of eight rows of sixteen read as one row.
proof fn lemma_style_place(b: usize, i: int, c: int)
    requires
        0 <= i < b,
        0 <= c < 128,
    ensures
        place(Shape::D3(b, 8, 16), number(Shape::D2(b, 128), spot2(i, c))) == spot3(
            i,
            c / 16,
            c % 16,
        ),
{
    let two = Shape::D2(b, 128);
    let three = Shape::D3(b, 8, 16);
    assert(back(two, 0) == 128 && back(two, 1) == b && back(two, 2) == 1);
    assert(back(three, 0) == 16 && back(three, 1) == 8 && back(three, 2) == b);
    let at = i * 128 + c;
    assert(0 * b == 0) by (nonlinear_arith);
    assert(number(two, spot2(i, c)) == at);
    lemma_parts(at, 16, i * 8 + c / 16, c % 16);
    lemma_parts(i * 8 + c / 16, 8, i, c / 16);
    lemma_below(i, b as int);
}

/// A column read as a line.
proof fn lemma_single_place(b: usize, i: int)
    requires
        0 <= i < b,
    ensures
        place(Shape::D2(b, 1), number(Shape::D1(b), spot1(i))) == spot2(i, 0),
{
    let one = Shape::D1(b);
    let two = Shape::D2(b, 1);
    assert(back(one, 0) == b && back(one, 1) == 1 && back(one, 2) == 1);
    assert(back(two, 0) == 1 && back(two, 1) == b && back(two, 2) == 1);
    assert(0 * b == 0) by (nonlinear_arith);
    assert(number(one, spot1(i)) == i);
    lemma_below(i, b as int);
}

/// In numbers: every predicted duration is positive, and exceeds any bound that the last
/// layer exceeds.
pub proof fn law_duration_is_positive(
    w: World<real>,
    ids: Expr,
    style: Expr,
    mask: Expr,
    b: usize,
    t: usize,
    i: int,
)
    requires
        numbers(w),
        duration_shaped(w, ids, style, mask, b, t),
        0 <= i < b,
    ensures
        ({
            let q = duration_parts(ids, style, mask, b, t).predicted;
            &&& v1(w, q.duration, i) > 0real
            &&& v1(w, q.duration, i) >= 1real + v2(w, q.layer1, i, 0)
        }),
{
    law_duration_is_exponential(w, ids, style, mask, b, t, i, 0);
}

} // verus!
