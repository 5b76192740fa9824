//! What holds of one step of the flow.

use vstd::prelude::*;

use crate::model::candle::attention_laws::lemma_parts;
use crate::model::candle::conditioning::{style_cond, text_cond, time_cond};
use crate::model::candle::conditioning_laws::{
    law_style_cond, law_text_cond, law_time_cond, part_at,
};
use crate::model::candle::graph::{ap1, ap2, ap3, Expr, Op, Shape};
use crate::model::candle::layer_laws::{
    block_computes, channels, kernel_row, law_convnext_block, law_stack, lemma_plain_conv,
};
use crate::model::candle::layers::{stack_parts, stack_value};
use crate::model::candle::meaning::{
    back, lemma_meaning1, lemma_meaning2, lemma_meaning3, meaning, number, place, row, shrunk,
    spot1, spot2, spot3, World,
};
use crate::model::candle::values::{
    minus, numbers, over, plus, shape_of, times, v1, v2, v3, w1, w2, w3,
};
use crate::model::candle::vector_estimator::{
    block_parts, blocks_value, convnext, field_start, moved, rows, setting, vector_field, Setting,
    StepInputs, LAST_DILATIONS, SINGLE_DILATION, WIDE_DILATIONS,
};
use crate::strings::decimal;

verus! {

/// Whether the inputs of a step with `t` frames and `s` ids have their shapes.
pub open spec fn step_shaped<R>(w: World<R>, i: StepInputs, t: usize, s: usize) -> bool {
    &&& shape_of(w, i.noisy_latent) == Shape::D3(1, 144, t)
    &&& shape_of(w, i.text_emb) == Shape::D3(1, 256, s)
    &&& shape_of(w, i.style_ttl) == Shape::D3(1, 50, 256)
    &&& shape_of(w, i.latent_mask) == Shape::D3(1, 1, t)
    &&& shape_of(w, i.text_mask) == Shape::D3(1, 1, s)
    &&& shape_of(w, i.current_step) == Shape::D1(1)
    &&& shape_of(w, i.total_step) == Shape::D1(1)
}

/// A step adds to each element of the latent four times the field of the first row less
/// three times that of the second, over the number of steps, and masks the result.
pub proof fn law_step_moves_latent<R>(
    w: World<R>,
    i: StepInputs,
    field: Expr,
    t: usize,
    s: usize,
    c: int,
    k: int,
)
    requires
        step_shaped(w, i, t, s),
        shape_of(w, field) == Shape::D3(2, 144, t),
        0 <= c < 144,
        0 <= k < t,
    ensures
        shape_of(w, moved(i, field)) == Shape::D3(1, 144, t),
        ({
            let with = v3(w, field, 0, c, k);
            let without = v3(w, field, 1, c, k);
            let velocity = minus(
                w,
                (w.alone)(Op::Times(4), with),
                (w.alone)(Op::Times(3), without),
            );
            let start = v3(w, i.noisy_latent, 0, c, k);
            v3(w, moved(i, field), 0, c, k) == times(
                w,
                plus(w, start, over(w, velocity, v1(w, i.total_step, 0))),
                v3(w, i.latent_mask, 0, 0, k),
            )
        }),
{
    let first = Op::Narrow { dim: 0, start: 0, len: 1 };
    let second = Op::Narrow { dim: 0, start: 1, len: 1 };
    let a = ap1(first, field);
    let b = ap1(second, field);
    let a4 = ap1(Op::Times(4), a);
    let b3 = ap1(Op::Times(3), b);
    let d = ap2(Op::Sub, a4, b3);
    let q = ap2(Op::OverFirst, d, i.total_step);
    let n = ap2(Op::Add, i.noisy_latent, q);
    lemma_meaning1(w, first, field);
    lemma_meaning1(w, second, field);
    lemma_meaning1(w, Op::Times(4), a);
    lemma_meaning1(w, Op::Times(3), b);
    lemma_meaning2(w, Op::Sub, a4, b3);
    lemma_meaning2(w, Op::OverFirst, d, i.total_step);
    lemma_meaning2(w, Op::Add, i.noisy_latent, q);
    lemma_meaning2(w, Op::Mul, n, i.latent_mask);
    assert(v3(w, a, 0, c, k) == v3(w, field, 0, c, k));
    assert(v3(w, b, 0, c, k) == v3(w, field, 1, c, k));
    assert(v3(w, d, 0, c, k) == minus(w, v3(w, a4, 0, c, k), v3(w, b3, 0, c, k)));
}

/// In numbers: where the mask is one, a step moves the latent by the guided velocity over
/// the number of steps, so it stays where the field is zero, rises where the velocity is
/// positive and falls where it is negative; where the mask is zero, the latent is zero.
pub proof fn law_step_follows_field(
    w: World<real>,
    i: StepInputs,
    field: Expr,
    t: usize,
    s: usize,
    c: int,
    k: int,
)
    requires
        numbers(w),
        step_shaped(w, i, t, s),
        shape_of(w, field) == Shape::D3(2, 144, t),
        v1(w, i.total_step, 0) > 0real,
        0 <= c < 144,
        0 <= k < t,
    ensures
        ({
            let with = v3(w, field, 0, c, k);
            let without = v3(w, field, 1, c, k);
            let velocity = 4real * with - 3real * without;
            let start = v3(w, i.noisy_latent, 0, c, k);
            let end = v3(w, moved(i, field), 0, c, k);
            let mask = v3(w, i.latent_mask, 0, 0, k);
            &&& mask == 1real ==> {
                &&& end == start + velocity / v1(w, i.total_step, 0)
                &&& velocity > 0real ==> end > start
                &&& velocity < 0real ==> end < start
                &&& with == 0real && without == 0real ==> end == start
            }
            &&& mask == 0real ==> end == 0real
        }),
{
    law_step_moves_latent(w, i, field, t, s, c, k);
    let with = v3(w, field, 0, c, k);
    let without = v3(w, field, 1, c, k);
    let velocity = 4real * with - 3real * without;
    let total = v1(w, i.total_step, 0);
    assert((w.alone)(Op::Times(4), with) == 4real * with);
    assert((w.alone)(Op::Times(3), without) == 3real * without);
    let d = velocity / total;
    let e = v3(w, i.noisy_latent, 0, c, k) + d;
    assert(e * 1real == e && e * 0real == 0real) by (nonlinear_arith);
    assert(velocity > 0real ==> d > 0real) by (nonlinear_arith)
        requires
            d == velocity / total,
            total > 0real,
    ;
    assert(velocity < 0real ==> d < 0real) by (nonlinear_arith)
        requires
            d == velocity / total,
            total > 0real,
    ;
    assert(velocity == 0real ==> d == 0real) by (nonlinear_arith)
        requires
            d == velocity / total,
            total > 0real,
    ;
}

// ---------------------------------------------------------------------------
// The two rows
// ---------------------------------------------------------------------------

/// Two values as the two rows of one.
proof fn lemma_rows<R>(w: World<R>, a: Expr, b: Expr, m: usize, n: usize, i: int, j: int, k: int)
    requires
        shape_of(w, a) == Shape::D3(1, m, n),
        shape_of(w, b) == Shape::D3(1, m, n),
        0 <= i < 2,
    ensures
        shape_of(w, rows(a, b)) == Shape::D3(2, m, n),
        v3(w, rows(a, b), i, j, k) == if i == 0 {
            v3(w, a, 0, j, k)
        } else {
            v3(w, b, 0, j, k)
        },
{
    lemma_meaning2(w, Op::Cat { dim: 0 }, a, b);
}

/// The first row is conditioned on the utterance: its text, the learned keys and its
/// style. The second is conditioned on learned tokens in their place. Both have the masks
/// of the utterance.
#[verifier::rlimit(40)]
pub proof fn law_step_rows<R>(
    w: World<R>,
    i: StepInputs,
    t: usize,
    s: usize,
    c: int,
    k: int,
    l: int,
    r: int,
)
    requires
        step_shaped(w, i, t, s),
        0 <= c < 256,
        0 <= k < t,
        0 <= l < s,
        0 <= r < 50,
    ensures
        ({
            let e = setting(i, t, s);
            &&& shape_of(w, e.text) == Shape::D3(2, 256, s)
            &&& shape_of(w, e.keys) == Shape::D3(2, 50, 256)
            &&& shape_of(w, e.values) == Shape::D3(2, 50, 256)
            &&& shape_of(w, e.mask) == Shape::D3(2, 1, t)
            &&& shape_of(w, e.text_mask) == Shape::D3(2, 1, s)
            &&& v3(w, e.text, 0, c, l) == v3(w, i.text_emb, 0, c, l)
            &&& v3(w, e.text, 1, c, l) == times(
                w,
                w3(w, "vector_estimator.tts.ttl.uncond_masker.text_special_token"@, 0, c, 0),
                v3(w, i.text_mask, 0, 0, l),
            )
            &&& v3(w, e.keys, 0, r, c) == w3(w, "/vector_estimator/Expand_output_0"@, 0, r, c)
            &&& v3(w, e.keys, 1, r, c) == w3(
                w,
                "vector_estimator.tts.ttl.uncond_masker.style_key_special_token"@,
                0,
                r,
                c,
            )
            &&& v3(w, e.values, 0, r, c) == v3(w, i.style_ttl, 0, r, c)
            &&& v3(w, e.values, 1, r, c) == w3(
                w,
                "vector_estimator.tts.ttl.uncond_masker.style_value_special_token"@,
                0,
                r,
                c,
            )
            &&& v3(w, e.mask, 0, 0, k) == v3(w, i.latent_mask, 0, 0, k)
            &&& v3(w, e.mask, 1, 0, k) == v3(w, i.latent_mask, 0, 0, k)
            &&& v3(w, e.text_mask, 0, 0, l) == v3(w, i.text_mask, 0, 0, l)
            &&& v3(w, e.text_mask, 1, 0, l) == v3(w, i.text_mask, 0, 0, l)
        }),
{
    let style = Shape::D3(1, 50, 256);
    let special = Expr::Weight(
        "vector_estimator.tts.ttl.uncond_masker.text_special_token"@,
        Shape::D3(1, 256, 1),
    );
    let wide = Op::Expand(Shape::D3(1, 256, s));
    let long = ap1(wide, special);
    let token = ap2(Op::Mul, long, i.text_mask);
    lemma_meaning1(w, wide, special);
    lemma_meaning2(w, Op::Mul, long, i.text_mask);
    assert(shrunk(Shape::D3(1, 256, 1), spot3(0, c, l)) == spot3(0, c, 0));
    assert(shrunk(Shape::D3(1, 256, s), spot3(0, c, l)) == spot3(0, c, l));
    assert(shrunk(Shape::D3(1, 1, s), spot3(0, c, l)) == spot3(0, 0, l));
    let key = Expr::Weight("/vector_estimator/Expand_output_0"@, style);
    let key_token = Expr::Weight(
        "vector_estimator.tts.ttl.uncond_masker.style_key_special_token"@,
        style,
    );
    let value_token = Expr::Weight(
        "vector_estimator.tts.ttl.uncond_masker.style_value_special_token"@,
        style,
    );
    lemma_rows(w, i.text_emb, token, 256, s, 0, c, l);
    lemma_rows(w, i.text_emb, token, 256, s, 1, c, l);
    lemma_rows(w, key, key_token, 50, 256, 0, r, c);
    lemma_rows(w, key, key_token, 50, 256, 1, r, c);
    lemma_rows(w, i.style_ttl, value_token, 50, 256, 0, r, c);
    lemma_rows(w, i.style_ttl, value_token, 50, 256, 1, r, c);
    lemma_rows(w, i.latent_mask, i.latent_mask, 1, t, 0, 0, k);
    lemma_rows(w, i.latent_mask, i.latent_mask, 1, t, 1, 0, k);
    lemma_rows(w, i.text_mask, i.text_mask, 1, s, 0, 0, l);
    lemma_rows(w, i.text_mask, i.text_mask, 1, s, 1, 0, l);
}

// ---------------------------------------------------------------------------
// The time
// ---------------------------------------------------------------------------

/// Pair `e` of the waves: the scaled time times the frequency of the pair.
pub open spec fn phase<R>(w: World<R>, time: R, e: int) -> R {
    times(
        w,
        times(
            w,
            time,
            w1(
                w,
                "/vector_estimator/vector_field/time_encoder/sinusoidal/Constant_2_output_0"@,
                0,
            ),
        ),
        w2(
            w,
            "/vector_estimator/vector_field/time_encoder/sinusoidal/Constant_3_output_0"@,
            0,
            e,
        ),
    )
}

/// The 32 sines and the 32 cosines of a time.
pub open spec fn waves<R>(w: World<R>, time: R) -> Seq<R> {
    Seq::new(
        64,
        |c: int|
            if c < 32 {
                (w.alone)(Op::Sin, phase(w, time, c))
            } else {
                (w.alone)(Op::Cos, phase(w, time, c - 32))
            },
    )
}

/// The first layer upon the waves.
pub open spec fn time_hidden<R>(w: World<R>, time: R, o: int) -> R {
    plus(
        w,
        (w.dot)(
            waves(w, time),
            Seq::new(
                64,
                |c: int|
                    w2(
                        w,
                        "vector_estimator.tts.ttl.vector_field.time_encoder.mlp.0.linear.weight"@,
                        o,
                        c,
                    ),
            ),
        ),
        w1(w, "vector_estimator.tts.ttl.vector_field.time_encoder.mlp.0.linear.bias"@, o),
    )
}

/// Channel `d` of the embedding of a time.
pub open spec fn time_channel<R>(w: World<R>, time: R, d: int) -> R {
    plus(
        w,
        (w.dot)(
            Seq::new(256, |o: int| (w.alone)(Op::Mish, time_hidden(w, time, o))),
            Seq::new(
                256,
                |o: int|
                    w2(
                        w,
                        "vector_estimator.tts.ttl.vector_field.time_encoder.mlp.2.linear.weight"@,
                        d,
                        o,
                    ),
            ),
        ),
        w1(w, "vector_estimator.tts.ttl.vector_field.time_encoder.mlp.2.linear.bias"@, d),
    )
}

/// The waves of the times of two rows.
spec fn wave_rows(time: Expr) -> Expr {
    let scaled = ap2(
        Op::TimesScalar,
        ap1(Op::Reshape(Shape::D2(2, 1)), time),
        Expr::Weight(
            "/vector_estimator/vector_field/time_encoder/sinusoidal/Constant_2_output_0"@,
            Shape::D0,
        ),
    );
    let phase = ap2(
        Op::Mul,
        scaled,
        Expr::Weight(
            "/vector_estimator/vector_field/time_encoder/sinusoidal/Constant_3_output_0"@,
            Shape::D2(1, 32),
        ),
    );
    ap2(Op::Cat { dim: 1 }, ap1(Op::Sin, phase), ap1(Op::Cos, phase))
}

#[verifier::rlimit(40)]
proof fn lemma_wave_rows<R>(w: World<R>, time: Expr, n: int, c: int)
    requires
        shape_of(w, time) == Shape::D1(2),
        0 <= n < 2,
        0 <= c < 64,
    ensures
        shape_of(w, wave_rows(time)) == Shape::D2(2, 64),
        v2(w, wave_rows(time), n, c) == waves(w, v1(w, time, n))[c],
{
    let col = Op::Reshape(Shape::D2(2, 1));
    let scale = Expr::Weight(
        "/vector_estimator/vector_field/time_encoder/sinusoidal/Constant_2_output_0"@,
        Shape::D0,
    );
    let freq = Expr::Weight(
        "/vector_estimator/vector_field/time_encoder/sinusoidal/Constant_3_output_0"@,
        Shape::D2(1, 32),
    );
    let t2 = ap1(col, time);
    let scaled = ap2(Op::TimesScalar, t2, scale);
    let ph = ap2(Op::Mul, scaled, freq);
    let sin = ap1(Op::Sin, ph);
    let cos = ap1(Op::Cos, ph);
    lemma_meaning1(w, col, time);
    lemma_meaning2(w, Op::TimesScalar, t2, scale);
    lemma_meaning2(w, Op::Mul, scaled, freq);
    lemma_meaning1(w, Op::Sin, ph);
    lemma_meaning1(w, Op::Cos, ph);
    lemma_meaning2(w, Op::Cat { dim: 1 }, sin, cos);
    let one = Shape::D1(2);
    let two = Shape::D2(2, 1);
    assert(place(one, number(two, spot2(n, 0))) == spot1(n)) by {
        assert(back(one, 0) == 2 && back(one, 1) == 1 && back(one, 2) == 1);
        assert(back(two, 0) == 1 && back(two, 1) == 2 && back(two, 2) == 1);
        assert(number(two, spot2(n, 0)) == n);
    }
    let e = if c < 32 {
        c
    } else {
        c - 32
    };
    assert(shrunk(two, spot2(n, e)) == spot2(n, 0));
    assert(shrunk(Shape::D2(1, 32), spot2(n, e)) == spot2(0, e));
    assert(v2(w, ph, n, e) == phase(w, v1(w, time, n), e));
}

/// The time of a step is the current step over all steps, the same for both rows. Its
/// embedding is made from sines and cosines by two layers with a Mish between them.
#[verifier::rlimit(60)]
pub proof fn law_step_time<R>(
    w: World<R>,
    i: StepInputs,
    t: usize,
    s: usize,
    n: int,
    d: int,
)
    requires
        step_shaped(w, i, t, s),
        0 <= n < 2,
        0 <= d < 64,
    ensures
        shape_of(w, setting(i, t, s).time) == Shape::D3(2, 64, 1),
        v3(w, setting(i, t, s).time, n, d, 0) == time_channel(
            w,
            over(w, v1(w, i.current_step, 0), v1(w, i.total_step, 0)),
            d,
        ),
{
    let time = ap2(Op::Div, i.current_step, i.total_step);
    let both = rows(time, time);
    lemma_meaning2(w, Op::Div, i.current_step, i.total_step);
    lemma_meaning2(w, Op::Cat { dim: 0 }, time, time);
    assert(shape_of(w, both) == Shape::D1(2));
    let now = over(w, v1(w, i.current_step, 0), v1(w, i.total_step, 0));
    assert(shrunk(Shape::D1(1), spot1(0)) == spot1(0));
    assert(v1(w, both, n) == now);
    let wave = wave_rows(both);
    lemma_wave_rows(w, both, n, 0);
    let w0 = Expr::Weight(
        "vector_estimator.tts.ttl.vector_field.time_encoder.mlp.0.linear.weight"@,
        Shape::D2(256, 64),
    );
    let b0 = Expr::Weight(
        "vector_estimator.tts.ttl.vector_field.time_encoder.mlp.0.linear.bias"@,
        Shape::D1(256),
    );
    let w2_ = Expr::Weight(
        "vector_estimator.tts.ttl.vector_field.time_encoder.mlp.2.linear.weight"@,
        Shape::D2(64, 256),
    );
    let b2 = Expr::Weight(
        "vector_estimator.tts.ttl.vector_field.time_encoder.mlp.2.linear.bias"@,
        Shape::D1(64),
    );
    let mlp0 = ap3(Op::Linear, wave, w0, b0);
    let mish = ap1(Op::Mish, mlp0);
    let mlp2 = ap3(Op::Linear, mish, w2_, b2);
    let three = Op::Reshape(Shape::D3(2, 64, 1));
    lemma_meaning3(w, Op::Linear, wave, w0, b0);
    lemma_meaning1(w, Op::Mish, mlp0);
    lemma_meaning3(w, Op::Linear, mish, w2_, b2);
    lemma_meaning1(w, three, mlp2);
    assert(place(Shape::D2(2, 64), number(Shape::D3(2, 64, 1), spot3(n, d, 0))) == spot2(n, d)) by {
        let two = Shape::D2(2, 64);
        let s3 = Shape::D3(2, 64, 1);
        assert(back(two, 0) == 64 && back(two, 1) == 2 && back(two, 2) == 1);
        assert(back(s3, 0) == 1 && back(s3, 1) == 64 && back(s3, 2) == 2);
        assert(number(s3, spot3(n, d, 0)) == n * 64 + d);
        lemma_parts(n * 64 + d, 64, n, d);
    }
    assert forall|o: int| 0 <= o < 256 implies #[trigger] v2(w, mlp0, n, o) == time_hidden(
        w,
        now,
        o,
    ) by {
        let e = row(meaning(w, wave), spot2(n, o));
        assert forall|c: int| 0 <= c < 64 implies #[trigger] e[c] == waves(w, now)[c] by {
            lemma_wave_rows(w, both, n, c);
        }
        assert(e =~= waves(w, now));
        let m0 = meaning(w, w0);
        assert(Seq::new(64, |q: int| (m0.at)(spot2(o, q))) =~= Seq::new(
            64,
            |c: int|
                w2(
                    w,
                    "vector_estimator.tts.ttl.vector_field.time_encoder.mlp.0.linear.weight"@,
                    o,
                    c,
                ),
        ));
    }
    let f = row(meaning(w, mish), spot2(n, d));
    let g = Seq::new(256, |o: int| (w.alone)(Op::Mish, time_hidden(w, now, o)));
    assert forall|o: int| 0 <= o < 256 implies #[trigger] f[o] == g[o] by {
        assert(v2(w, mlp0, n, o) == time_hidden(w, now, o));
    }
    assert(f =~= g);
    let m2 = meaning(w, w2_);
    assert(Seq::new(256, |q: int| (m2.at)(spot2(d, q))) =~= Seq::new(
        256,
        |o: int|
            w2(
                w,
                "vector_estimator.tts.ttl.vector_field.time_encoder.mlp.2.linear.weight"@,
                d,
                o,
            ),
    ));
    assert(setting(i, t, s).time == ap1(three, mlp2));
}

// ---------------------------------------------------------------------------
// The field
// ---------------------------------------------------------------------------

/// Whether a value of the flow, and what it is conditioned on, have their shapes.
pub open spec fn flow_shaped<R>(w: World<R>, x: Expr, e: Setting) -> bool {
    &&& shape_of(w, x) == Shape::D3(2, 512, e.t)
    &&& shape_of(w, e.time) == Shape::D3(2, 64, 1)
    &&& shape_of(w, e.text) == Shape::D3(2, 256, e.s)
    &&& shape_of(w, e.keys) == Shape::D3(2, 50, 256)
    &&& shape_of(w, e.values) == Shape::D3(2, 50, 256)
    &&& shape_of(w, e.mask) == Shape::D3(2, 1, e.t)
    &&& shape_of(w, e.text_mask) == Shape::D3(2, 1, e.s)
    &&& e.t > 0
    &&& e.s > 0
    &&& e.t + 32 <= usize::MAX
}

/// How far apart the kernels of block `j` of a stack reach: twice as far from one to the
/// next where the stack is wide, and to the next step otherwise.
pub open spec fn flow_dilation(wide: bool, j: int) -> int {
    if wide && j == 1 {
        2
    } else if wide && j == 2 {
        4
    } else if wide && j == 3 {
        8
    } else {
        1
    }
}

/// The blocks of a stack of the flow, each of 512 channels with kernels of five steps.
pub open spec fn flow_stack<R>(
    w: World<R>,
    root: Seq<char>,
    dilations: Seq<usize>,
    wide: bool,
    count: int,
    x: Expr,
    y: Expr,
    mask: Expr,
    t: int,
    i: int,
    c: int,
    k: int,
) -> bool {
    &&& stack_value(convnext(), root, dilations, x, Some(mask), 0) == x
    &&& stack_value(convnext(), root, dilations, x, Some(mask), count) == y
    &&& forall|j: int|
        0 <= j < count ==> {
            let a = #[trigger] stack_parts(convnext(), root, dilations, x, Some(mask), j);
            &&& stack_value(convnext(), root, dilations, x, Some(mask), j + 1) == a.out
            &&& block_computes(
                w,
                a,
                root + decimal(j),
                ".dwconv"@,
                512,
                2048,
                5,
                flow_dilation(wide, j),
                2 * flow_dilation(wide, j),
                stack_value(convnext(), root, dilations, x, Some(mask), j),
                Some(mask),
                t,
                i,
                c,
                k,
            )
        }
}

proof fn lemma_flow_stack<R>(
    w: World<R>,
    root: Seq<char>,
    dilations: Seq<usize>,
    wide: bool,
    x: Expr,
    mask: Expr,
    t: usize,
    i: int,
    c: int,
    k: int,
)
    requires
        shape_of(w, x) == Shape::D3(2, 512, t),
        shape_of(w, mask) == Shape::D3(2, 1, t),
        t > 0,
        t + 32 <= usize::MAX,
        forall|j: int|
            0 <= j < dilations.len() ==> #[trigger] dilations[j] == flow_dilation(wide, j),
        0 <= i < 2,
        0 <= c < 512,
        0 <= k < t,
    ensures
        ({
            let n = dilations.len() as int;
            let y = stack_value(convnext(), root, dilations, x, Some(mask), n);
            &&& shape_of(w, y) == Shape::D3(2, 512, t)
            &&& flow_stack(w, root, dilations, wide, n, x, y, mask, t as int, i, c, k)
        }),
{
    let n = dilations.len() as int;
    assert forall|j: int| 0 <= j < n implies #[trigger] dilations[j] > 0 && t + dilations[j] * (
    convnext().kernel - 1) <= usize::MAX by {
        assert(dilations[j] == flow_dilation(wide, j));
    }
    law_stack(w, convnext(), root, dilations, x, Some(mask), 2, t, n);
    assert forall|j: int| 0 <= j < n implies ({
        let a = #[trigger] stack_parts(convnext(), root, dilations, x, Some(mask), j);
        &&& stack_value(convnext(), root, dilations, x, Some(mask), j + 1) == a.out
        &&& block_computes(
            w,
            a,
            root + decimal(j),
            ".dwconv"@,
            512,
            2048,
            5,
            flow_dilation(wide, j),
            2 * flow_dilation(wide, j),
            stack_value(convnext(), root, dilations, x, Some(mask), j),
            Some(mask),
            t as int,
            i,
            c,
            k,
        )
    }) by {
        law_stack(w, convnext(), root, dilations, x, Some(mask), 2, t, j);
        let before = stack_value(convnext(), root, dilations, x, Some(mask), j);
        assert(dilations[j] == flow_dilation(wide, j));
        law_convnext_block(
            w,
            convnext(),
            root + decimal(j),
            dilations[j],
            before,
            Some(mask),
            2,
            t,
            i,
            c,
            k,
        );
    }
}

/// A block of the flow: a wide stack, the time, a block, the text, a block and the style,
/// each upon what the one before it leaves.
#[verifier::rlimit(60)]
pub proof fn law_flow_block<R>(
    w: World<R>,
    block: int,
    x: Expr,
    e: Setting,
    i: int,
    c: int,
    k: int,
)
    requires
        0 <= block < 4,
        flow_shaped(w, x, e),
        0 <= i < 2,
        0 <= c < 512,
        0 <= k < e.t,
    ensures
        ({
            let p = block_parts(block, x, e);
            let t = e.t as int;
            &&& flow_stack(
                w,
                part_at(block, 0) + ".convnext."@,
                seq![1usize, 2, 4, 8],
                true,
                4,
                x,
                p.convnext_0,
                e.mask,
                t,
                i,
                c,
                k,
            )
            &&& p.time_cond == time_cond(block, p.convnext_0, e.time, e.mask)
            &&& flow_stack(
                w,
                part_at(block, 2) + ".convnext."@,
                seq![1usize],
                false,
                1,
                p.time_cond,
                p.convnext_1,
                e.mask,
                t,
                i,
                c,
                k,
            )
            &&& p.text_cond == text_cond(
                block,
                p.convnext_1,
                e.text,
                e.mask,
                e.text_mask,
                e.t,
                e.s,
            )
            &&& flow_stack(
                w,
                part_at(block, 4) + ".convnext."@,
                seq![1usize],
                false,
                1,
                p.text_cond.out,
                p.convnext_2,
                e.mask,
                t,
                i,
                c,
                k,
            )
            &&& p.style_cond == style_cond(block, p.convnext_2, e.keys, e.values, e.mask, e.t)
            &&& shape_of(w, p.convnext_0) == Shape::D3(2, 512, e.t)
            &&& shape_of(w, p.time_cond) == Shape::D3(2, 512, e.t)
            &&& shape_of(w, p.convnext_1) == Shape::D3(2, 512, e.t)
            &&& shape_of(w, p.text_cond.out) == Shape::D3(2, 512, e.t)
            &&& shape_of(w, p.convnext_2) == Shape::D3(2, 512, e.t)
            &&& shape_of(w, p.style_cond.out) == Shape::D3(2, 512, e.t)
        }),
{
    let p = block_parts(block, x, e);
    let wide = seq![1usize, 2, 4, 8];
    let single = seq![1usize];
    assert(wide =~= WIDE_DILATIONS@);
    assert(single =~= SINGLE_DILATION@);
    lemma_flow_stack(
        w,
        part_at(block, 0) + ".convnext."@,
        wide,
        true,
        x,
        e.mask,
        e.t,
        i,
        c,
        k,
    );
    law_time_cond(w, block, p.convnext_0, e.time, e.mask, e.t, i, c, k);
    lemma_flow_stack(
        w,
        part_at(block, 2) + ".convnext."@,
        single,
        false,
        p.time_cond,
        e.mask,
        e.t,
        i,
        c,
        k,
    );
    law_text_cond(w, block, p.convnext_1, e.text, e.mask, e.text_mask, e.t, e.s, i, k, 0, c);
    lemma_flow_stack(
        w,
        part_at(block, 4) + ".convnext."@,
        single,
        false,
        p.text_cond.out,
        e.mask,
        e.t,
        i,
        c,
        k,
    );
    law_style_cond(w, block, p.convnext_2, e.keys, e.values, e.mask, e.t, i, k, 0, 0, c);
}

/// The blocks of the flow follow one another: each acts on what those before it leave, and
/// the first on the start.
pub proof fn law_flow_blocks<R>(w: World<R>, x: Expr, e: Setting, n: int)
    requires
        0 <= n <= 4,
        flow_shaped(w, x, e),
    ensures
        blocks_value(x, e, 0) == x,
        flow_shaped(w, blocks_value(x, e, n), e),
        n > 0 ==> blocks_value(x, e, n) == block_parts(
            n - 1,
            blocks_value(x, e, n - 1),
            e,
        ).style_cond.out,
    decreases n,
{
    if n > 0 {
        law_flow_blocks(w, x, e, n - 1);
        law_flow_block(w, n - 1, blocks_value(x, e, n - 1), e, 0, 0, 0);
    }
}

/// Both rows start from the same latent, projected and masked. Behind the four blocks
/// stands a stack of four, a projection and the mask; what they leave is the field.
#[verifier::rlimit(60)]
pub proof fn law_field_ends<R>(
    w: World<R>,
    i: StepInputs,
    t: usize,
    s: usize,
    n: int,
    c: int,
    o: int,
    k: int,
)
    requires
        step_shaped(w, i, t, s),
        0 < t,
        0 < s,
        t + 32 <= usize::MAX,
        0 <= n < 2,
        0 <= c < 144,
        0 <= o < 512,
        0 <= k < t,
    ensures
        ({
            let e = setting(i, t, s);
            let start = field_start(i, e);
            let x = blocks_value(start, e, 4);
            let root = "vector_estimator.tts.ttl.vector_field.last_convnext.convnext."@;
            let last = stack_value(convnext(), root, seq![1usize, 1, 1, 1], x, Some(e.mask), 4);
            let valid = v3(w, i.latent_mask, 0, 0, k);
            let field = vector_field(i, t, s);
            &&& flow_shaped(w, start, e)
            &&& v3(w, start, n, o, k) == times(
                w,
                (w.dot)(
                    channels(w, i.noisy_latent, 144, 0, k),
                    kernel_row(
                        w,
                        "vector_estimator.tts.ttl.vector_field.proj_in.net.weight"@,
                        144,
                        o,
                    ),
                ),
                valid,
            )
            &&& flow_stack(
                w,
                root,
                seq![1usize, 1, 1, 1],
                false,
                4,
                x,
                last,
                e.mask,
                t as int,
                n,
                o,
                k,
            )
            &&& shape_of(w, field) == Shape::D3(2, 144, t)
            &&& v3(w, field, n, c, k) == times(
                w,
                (w.dot)(
                    channels(w, last, 512, n, k),
                    kernel_row(
                        w,
                        "vector_estimator.tts.ttl.vector_field.proj_out.net.weight"@,
                        512,
                        c,
                    ),
                ),
                valid,
            )
        }),
{
    let e = setting(i, t, s);
    let start = field_start(i, e);
    law_step_rows(w, i, t, s, 0, k, 0, 0);
    law_step_time(w, i, t, s, 0, 0);
    let noisy = rows(i.noisy_latent, i.noisy_latent);
    lemma_rows(w, i.noisy_latent, i.noisy_latent, 144, t, n, 0, k);
    assert(channels(w, noisy, 144, n, k) =~= channels(w, i.noisy_latent, 144, 0, k)) by {
        assert forall|d: int| 0 <= d < 144 implies #[trigger] channels(w, noisy, 144, n, k)[d]
            == channels(w, i.noisy_latent, 144, 0, k)[d] by {
            lemma_rows(w, i.noisy_latent, i.noisy_latent, 144, t, n, d, k);
        }
    }
    let name_in = "vector_estimator.tts.ttl.vector_field.proj_in.net.weight"@;
    let one = Op::Conv { dilation: 1, groups: 1 };
    let first = ap2(one, noisy, Expr::Weight(name_in, Shape::D3(512, 144, 1)));
    lemma_plain_conv(w, noisy, name_in, 2, 512, 144, t, n, o, k);
    lemma_meaning2(w, Op::Mul, first, e.mask);
    assert(shrunk(Shape::D3(2, 512, t), spot3(n, o, k)) == spot3(n, o, k));
    assert(shrunk(Shape::D3(2, 1, t), spot3(n, o, k)) == spot3(n, 0, k));
    assert(flow_shaped(w, start, e));
    law_flow_blocks(w, start, e, 4);
    let x = blocks_value(start, e, 4);
    let root = "vector_estimator.tts.ttl.vector_field.last_convnext.convnext."@;
    let four = seq![1usize, 1, 1, 1];
    assert(four =~= LAST_DILATIONS@);
    lemma_flow_stack(w, root, four, false, x, e.mask, t, n, o, k);
    let last = stack_value(convnext(), root, four, x, Some(e.mask), 4);
    let name_out = "vector_estimator.tts.ttl.vector_field.proj_out.net.weight"@;
    let end = ap2(one, last, Expr::Weight(name_out, Shape::D3(144, 512, 1)));
    lemma_plain_conv(w, last, name_out, 2, 144, 512, t, n, c, k);
    lemma_meaning2(w, Op::Mul, end, e.mask);
    assert(shrunk(Shape::D3(2, 144, t), spot3(n, c, k)) == spot3(n, c, k));
    assert(shrunk(Shape::D3(2, 1, t), spot3(n, c, k)) == spot3(n, 0, k));
    assert(vector_field(i, t, s) == ap2(Op::Mul, end, e.mask));
}

} // verus!
