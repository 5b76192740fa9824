//! What the layers by which time, text and style act compute, element by element.

use vstd::prelude::*;

use crate::model::candle::attention_laws::{lemma_below, lemma_line_place, lemma_square_place};
use crate::model::candle::conditioning::{
    angles, put_back, rotated, spread, style_cond, text_bias, text_cond, time_cond, CondParts,
};
use crate::model::candle::cross::{dealt, gathered, matrix, style_attention};
use crate::model::candle::cross_laws::{
    law_style_attention, lemma_dealt, lemma_gathered, style_heard,
};
use crate::model::candle::graph::{ap1, ap2, Expr, Op, Shape};
use crate::model::candle::layer_laws::{
    channels, column, law_channel_norm, law_projected, normed, tail,
};
use crate::model::candle::meaning::{
    back, lemma_meaning1, lemma_meaning2, meaning, number, place, row, shrunk, spot1, spot3, Place,
    World,
};
use crate::model::candle::values::{over, plus, shape_of, times, v3, v4, w1, w3};
use crate::strings::decimal;

verus! {

/// Where part `offset` of a block of the flow stands.
pub open spec fn part_at(block: int, offset: int) -> Seq<char> {
    "vector_estimator.tts.ttl.vector_field.main_blocks."@ + decimal(6 * block + offset)
}

/// A projection of a block, by its matrix of that offset.
pub open spec fn block_linear<R>(
    w: World<R>,
    block: int,
    offset: int,
    bias: Seq<char>,
    row: Seq<R>,
    o: int,
) -> R {
    plus(
        w,
        (w.dot)(
            row,
            column(w, "onnx::MatMul_"@ + decimal(3384 + 45 * block + offset), row.len() as int, o),
        ),
        w1(w, bias, o),
    )
}

// ---------------------------------------------------------------------------
// Time
// ---------------------------------------------------------------------------

/// The time, projected to a number for each channel, is added at every step.
#[verifier::rlimit(40)]
pub proof fn law_time_cond<R>(
    w: World<R>,
    block: int,
    x: Expr,
    time: Expr,
    mask: Expr,
    t: usize,
    i: int,
    c: int,
    k: int,
)
    requires
        0 <= block < 4,
        shape_of(w, x) == Shape::D3(2, 512, t),
        shape_of(w, time) == Shape::D3(2, 64, 1),
        shape_of(w, mask) == Shape::D3(2, 1, t),
        0 <= i < 2,
        0 <= c < 512,
        0 <= k < t,
    ensures
        shape_of(w, time_cond(block, x, time, mask)) == Shape::D3(2, 512, t),
        v3(w, time_cond(block, x, time, mask), i, c, k) == times(
            w,
            plus(
                w,
                v3(w, x, i, c, k),
                block_linear(
                    w,
                    block,
                    0,
                    part_at(block, 1) + ".linear.linear.bias"@,
                    Seq::new(64, |d: int| v3(w, time, i, d, 0)),
                    c,
                ),
            ),
            v3(w, mask, i, 0, k),
        ),
{
    let m = matrix(3384 + 45 * block, 64, 512);
    let bias = Expr::Weight(part_at(block, 1) + ".linear.linear.bias"@, Shape::D1(512));
    let turned = ap1(Op::SwapLast, time);
    let product = ap2(Op::MatMul, turned, m);
    let shift = ap2(Op::AddBias, product, bias);
    let up = ap1(Op::SwapLast, shift);
    let sum = ap2(Op::Add, x, up);
    lemma_meaning1(w, Op::SwapLast, time);
    lemma_meaning2(w, Op::MatMul, turned, m);
    lemma_meaning2(w, Op::AddBias, product, bias);
    lemma_meaning1(w, Op::SwapLast, shift);
    lemma_meaning2(w, Op::Add, x, up);
    lemma_meaning2(w, Op::Mul, sum, mask);
    let at = spot3(i, 0, c);
    let mm = meaning(w, m);
    assert(row(meaning(w, turned), at) =~= Seq::new(64, |d: int| v3(w, time, i, d, 0)));
    let e = Seq::new(64, |q: int| (mm.at)(shrunk(mm.shape, at.with(1, q))));
    let f = column(w, "onnx::MatMul_"@ + decimal(3384 + 45 * block), 64, c);
    assert forall|q: int| 0 <= q < 64 implies #[trigger] e[q] == f[q] by {
        assert(shrunk(mm.shape, at.with(1, q)) == (Place { a: 0, b: 0, c: q, d: c }));
    }
    assert(e =~= f);
    assert(shrunk(Shape::D3(2, 512, t), spot3(i, c, k)) == spot3(i, c, k));
    assert(shrunk(Shape::D3(2, 512, 1), spot3(i, c, k)) == spot3(i, c, 0));
    assert(shrunk(Shape::D3(2, 1, t), spot3(i, c, k)) == spot3(i, 0, k));
    assert(3384 + block * 45 + 0 == 3384 + 45 * block + 0);
    assert(time_cond(block, x, time, mask) == ap2(Op::Mul, sum, mask));
}

// ---------------------------------------------------------------------------
// Rotations
// ---------------------------------------------------------------------------

/// The angle of pair `e` of channels at position `k`: the position's share of the valid
/// steps, times the angle of the pair.
pub open spec fn angle_at<R>(w: World<R>, mask: Expr, n: int, k: int, e: int) -> R {
    times(
        w,
        over(w, (w.whole)(k), (w.total)(Seq::new(n as nat, |q: int| v3(w, mask, 0, 0, q)))),
        w3(w, "vector_estimator.tts.ttl.vector_field.main_blocks.3.attn.theta"@, 0, 0, e),
    )
}

/// Channel `d` of a head of 64 at position `k`, rotated: channel `d` and the one 32 away
/// turn about each other by the angle of their position.
pub open spec fn rotated_at<R>(
    w: World<R>,
    x: Expr,
    mask: Expr,
    n: int,
    i: int,
    h: int,
    k: int,
    d: int,
) -> R {
    if d < 32 {
        let angle = angle_at(w, mask, n, k, d);
        plus(
            w,
            times(w, v3(w, x, i, k, h * 64 + d), (w.alone)(Op::Cos, angle)),
            times(
                w,
                (w.alone)(Op::Neg, v3(w, x, i, k, h * 64 + d + 32)),
                (w.alone)(Op::Sin, angle),
            ),
        )
    } else {
        let angle = angle_at(w, mask, n, k, d - 32);
        plus(
            w,
            times(w, v3(w, x, i, k, h * 64 + d), (w.alone)(Op::Cos, angle)),
            times(w, v3(w, x, i, k, h * 64 + d - 32), (w.alone)(Op::Sin, angle)),
        )
    }
}

/// The angles of the positions.
#[verifier::rlimit(40)]
proof fn lemma_angles<R>(w: World<R>, mask: Expr, n: usize, k: int, e: int)
    requires
        shape_of(w, mask) == Shape::D3(2, 1, n),
        0 <= k < n,
        0 <= e < 32,
    ensures
        shape_of(w, angles(mask, n)) == Shape::D3(1, n, 32),
        v3(w, angles(mask, n), 0, k, e) == angle_at(w, mask, n as int, k, e),
{
    let count = Expr::Count(n);
    let three = Op::Reshape(Shape::D3(1, n, 1));
    let pos = ap1(three, count);
    let share = ap2(Op::OverValid, pos, mask);
    let theta = Expr::Weight(
        "vector_estimator.tts.ttl.vector_field.main_blocks.3.attn.theta"@,
        Shape::D3(1, 1, 32),
    );
    lemma_meaning1(w, three, count);
    lemma_meaning2(w, Op::OverValid, pos, mask);
    lemma_meaning2(w, Op::Mul, share, theta);
    let one = Shape::D1(n);
    let s = Shape::D3(1, n, 1);
    assert(place(one, number(s, spot3(0, k, 0))) == spot1(k)) by {
        assert(back(one, 0) == n && back(one, 1) == 1 && back(one, 2) == 1);
        assert(back(s, 0) == 1 && back(s, 1) == n && back(s, 2) == 1);
        assert(((0 * 1 + 0) * n + k) * 1 + 0 == k) by (nonlinear_arith);
        assert(number(s, spot3(0, k, 0)) == k);
        lemma_below(k, n as int);
    }
    let shape = Shape::D3(2, 1, n);
    let mm = meaning(w, mask);
    let valid = Seq::new((back(shape, 1) * back(shape, 0)) as nat, |q: int| (mm.at)(place(shape, q)));
    let known = Seq::new(n as nat, |q: int| v3(w, mask, 0, 0, q));
    assert(back(shape, 0) == n && back(shape, 1) == 1 && back(shape, 2) == 2);
    assert forall|q: int| 0 <= q < n implies #[trigger] valid[q] == known[q] by {
        lemma_below(q, n as int);
        assert(place(shape, q) == spot3(0, 0, q));
    }
    assert(valid =~= known);
    assert(shrunk(s, spot3(0, k, e)) == spot3(0, k, 0));
    assert(shrunk(Shape::D3(1, 1, 32), spot3(0, k, e)) == spot3(0, 0, e));
    assert(v3(w, share, 0, k, 0) == over(w, (w.whole)(k), (w.total)(known)));
}

/// A function of the angles, the same for all rows and heads.
proof fn lemma_spread<R>(w: World<R>, f: Expr, n: usize, i: int, h: int, k: int, e: int)
    requires
        shape_of(w, f) == Shape::D3(1, n, 32),
        0 <= i < 2,
        0 <= h < 8,
        0 <= k < n,
        0 <= e < 32,
    ensures
        shape_of(w, spread(f, n)) == Shape::D4(2, 8, n, 32),
        v4(w, spread(f, n), i, h, k, e) == v3(w, f, 0, k, e),
{
    let four = Op::Reshape(Shape::D4(1, 1, n, 32));
    let wide = Op::Expand(Shape::D4(2, 8, n, 32));
    lemma_meaning1(w, four, f);
    lemma_meaning1(w, wide, ap1(four, f));
    lemma_square_place(1, n, 32, 0, k, e);
    assert(shrunk(Shape::D4(1, 1, n, 32), (Place { a: i, b: h, c: k, d: e })) == (Place {
        a: 0,
        b: 0,
        c: k,
        d: e,
    }));
}

/// A pair of values turned about each other.
proof fn lemma_turned<R>(w: World<R>, even: Expr, odd: Expr, sin: Expr, cos: Expr, half: Shape, p: Place)
    requires
        shape_of(w, even) == half,
        shape_of(w, odd) == half,
        shape_of(w, sin) == half,
        shape_of(w, cos) == half,
        half is D4,
        shrunk(half, p) == p,
    ensures
        ({
            let first = ap2(
                Op::Add,
                ap2(Op::Mul, even, cos),
                ap2(Op::Mul, ap1(Op::Neg, odd), sin),
            );
            let second = ap2(Op::Add, ap2(Op::Mul, odd, cos), ap2(Op::Mul, even, sin));
            let e = (meaning(w, even).at)(p);
            let o = (meaning(w, odd).at)(p);
            let s = (meaning(w, sin).at)(p);
            let c = (meaning(w, cos).at)(p);
            &&& shape_of(w, first) == half
            &&& shape_of(w, second) == half
            &&& (meaning(w, first).at)(p) == plus(
                w,
                times(w, e, c),
                times(w, (w.alone)(Op::Neg, o), s),
            )
            &&& (meaning(w, second).at)(p) == plus(w, times(w, o, c), times(w, e, s))
        }),
{
    let neg = ap1(Op::Neg, odd);
    let ec = ap2(Op::Mul, even, cos);
    let ns = ap2(Op::Mul, neg, sin);
    let oc = ap2(Op::Mul, odd, cos);
    let es = ap2(Op::Mul, even, sin);
    lemma_meaning1(w, Op::Neg, odd);
    lemma_meaning2(w, Op::Mul, even, cos);
    lemma_meaning2(w, Op::Mul, neg, sin);
    lemma_meaning2(w, Op::Mul, odd, cos);
    lemma_meaning2(w, Op::Mul, even, sin);
    lemma_meaning2(w, Op::Add, ec, ns);
    lemma_meaning2(w, Op::Add, oc, es);
}

/// The two halves of the channels of a head.
proof fn lemma_halves<R>(w: World<R>, x: Expr, n: usize, i: int, h: int, k: int, e: int)
    requires
        shape_of(w, x) == Shape::D3(2, n, 512),
        0 <= i < 2,
        0 <= h < 8,
        0 <= k < n,
        0 <= e < 32,
    ensures
        ({
            let y = dealt(x, 2, n, 8, 64);
            let even = ap1(Op::Narrow { dim: 3, start: 0, len: 32 }, y);
            let odd = ap1(Op::Narrow { dim: 3, start: 32, len: 32 }, y);
            &&& shape_of(w, even) == Shape::D4(2, 8, n, 32)
            &&& shape_of(w, odd) == Shape::D4(2, 8, n, 32)
            &&& v4(w, even, i, h, k, e) == v3(w, x, i, k, h * 64 + e)
            &&& v4(w, odd, i, h, k, e) == v3(w, x, i, k, h * 64 + e + 32)
        }),
{
    let y = dealt(x, 2, n, 8, 64);
    lemma_dealt(w, x, 2, n, 8, 64, 512, i, h, k, e);
    lemma_dealt(w, x, 2, n, 8, 64, 512, i, h, k, e + 32);
    lemma_meaning1(w, Op::Narrow { dim: 3, start: 0, len: 32 }, y);
    lemma_meaning1(w, Op::Narrow { dim: 3, start: 32, len: 32 }, y);
}

/// Channels are rotated in pairs.
#[verifier::rlimit(40)]
proof fn lemma_rotated<R>(
    w: World<R>,
    x: Expr,
    mask: Expr,
    n: usize,
    i: int,
    h: int,
    k: int,
    d: int,
)
    requires
        shape_of(w, x) == Shape::D3(2, n, 512),
        shape_of(w, mask) == Shape::D3(2, 1, n),
        0 <= i < 2,
        0 <= h < 8,
        0 <= k < n,
        0 <= d < 64,
    ensures
        shape_of(w, rotated(dealt(x, 2, n, 8, 64), mask, n)) == Shape::D4(2, 8, n, 64),
        v4(w, rotated(dealt(x, 2, n, 8, 64), mask, n), i, h, k, d) == rotated_at(
            w,
            x,
            mask,
            n as int,
            i,
            h,
            k,
            d,
        ),
{
    let y = dealt(x, 2, n, 8, 64);
    let e = if d < 32 {
        d
    } else {
        d - 32
    };
    let even = ap1(Op::Narrow { dim: 3, start: 0, len: 32 }, y);
    let odd = ap1(Op::Narrow { dim: 3, start: 32, len: 32 }, y);
    lemma_halves(w, x, n, i, h, k, e);
    let an = angles(mask, n);
    let sine = ap1(Op::Sin, an);
    let cosine = ap1(Op::Cos, an);
    lemma_angles(w, mask, n, k, e);
    lemma_meaning1(w, Op::Sin, an);
    lemma_meaning1(w, Op::Cos, an);
    lemma_spread(w, sine, n, i, h, k, e);
    lemma_spread(w, cosine, n, i, h, k, e);
    let angle = angle_at(w, mask, n as int, k, e);
    assert(v3(w, sine, 0, k, e) == (w.alone)(Op::Sin, angle));
    assert(v3(w, cosine, 0, k, e) == (w.alone)(Op::Cos, angle));
    let sin = spread(sine, n);
    let cos = spread(cosine, n);
    let half = Shape::D4(2, 8, n, 32);
    let here = Place { a: i, b: h, c: k, d: e };
    assert(shrunk(half, here) == here);
    lemma_turned(w, even, odd, sin, cos, half, here);
    let first = ap2(Op::Add, ap2(Op::Mul, even, cos), ap2(Op::Mul, ap1(Op::Neg, odd), sin));
    let second = ap2(Op::Add, ap2(Op::Mul, odd, cos), ap2(Op::Mul, even, sin));
    lemma_joined(w, first, second, n, i, h, k, d);
    assert(h * 64 + e + 32 == h * 64 + (e + 32));
}

/// Two halves put together.
proof fn lemma_joined<R>(
    w: World<R>,
    first: Expr,
    second: Expr,
    n: usize,
    i: int,
    h: int,
    k: int,
    d: int,
)
    requires
        shape_of(w, first) == Shape::D4(2, 8, n, 32),
        shape_of(w, second) == Shape::D4(2, 8, n, 32),
    ensures
        ({
            let y = ap2(Op::Cat { dim: 3 }, first, second);
            &&& shape_of(w, y) == Shape::D4(2, 8, n, 64)
            &&& v4(w, y, i, h, k, d) == if d < 32 {
                v4(w, first, i, h, k, d)
            } else {
                v4(w, second, i, h, k, d - 32)
            }
        }),
{
    lemma_meaning2(w, Op::Cat { dim: 3 }, first, second);
}

// ---------------------------------------------------------------------------
// Text
// ---------------------------------------------------------------------------

/// Which steps of the flow may attend to which steps of the text.
#[verifier::rlimit(40)]
proof fn lemma_text_bias<R>(
    w: World<R>,
    mask: Expr,
    text_mask: Expr,
    t: usize,
    s: usize,
    i: int,
    h: int,
    k: int,
    l: int,
)
    requires
        shape_of(w, mask) == Shape::D3(2, 1, t),
        shape_of(w, text_mask) == Shape::D3(2, 1, s),
        0 <= i < 2,
        0 <= h < 8,
        0 <= k < t,
        0 <= l < s,
    ensures
        shape_of(w, text_bias(mask, text_mask, t, s)) == Shape::D4(2, 8, t, s),
        v4(w, text_bias(mask, text_mask, t, s), i, h, k, l) == (w.alone)(
            Op::MaskBias,
            (w.dot)(seq![v3(w, mask, i, 0, k)], seq![v3(w, text_mask, i, 0, l)]),
        ),
{
    let down = Op::Reshape(Shape::D3(2, t, 1));
    let across = Op::Reshape(Shape::D3(2, 1, s));
    let four = Op::Reshape(Shape::D4(2, 1, t, s));
    let wide = Op::Expand(Shape::D4(2, 8, t, s));
    let a = ap1(down, mask);
    let c = ap1(across, text_mask);
    let m = ap2(Op::MatMul, a, c);
    let m4 = ap1(four, m);
    let e = ap1(wide, m4);
    lemma_meaning1(w, down, mask);
    lemma_meaning1(w, across, text_mask);
    lemma_meaning2(w, Op::MatMul, a, c);
    lemma_meaning1(w, four, m);
    lemma_meaning1(w, wide, m4);
    lemma_meaning1(w, Op::MaskBias, e);
    lemma_line_place(2, t, i, k);
    lemma_line_place(2, s, i, l);
    lemma_square_place(2, t, s, i, k, l);
    assert(shrunk(Shape::D4(2, 1, t, s), (Place { a: i, b: h, c: k, d: l })) == (Place {
        a: i,
        b: 0,
        c: k,
        d: l,
    }));
    assert(v3(w, a, i, k, 0) == v3(w, mask, i, 0, k));
    assert(v3(w, c, i, 0, l) == v3(w, text_mask, i, 0, l));
    let mc = meaning(w, c);
    assert(row(meaning(w, a), spot3(i, k, l)) =~= seq![v3(w, mask, i, 0, k)]);
    assert(Seq::new(1, |q: int| (mc.at)(shrunk(mc.shape, spot3(i, k, l).with(1, q)))) =~= seq![
        v3(w, text_mask, i, 0, l),
    ]) by {
        assert(shrunk(mc.shape, spot3(i, k, l).with(1, 0)) == spot3(i, 0, l));
    }
    assert(v4(w, m4, i, 0, k, l) == v3(w, m, i, k, l));
}

/// The score of step `k` of the flow for step `r` of the text, in head `h`: the rotated
/// query against the rotated key, over the square root of the channels of the text, and
/// far below all others where one of the two is not valid.
pub open spec fn text_score<R>(
    w: World<R>,
    q: Expr,
    key: Expr,
    mask: Expr,
    text_mask: Expr,
    t: int,
    s: int,
    i: int,
    h: int,
    k: int,
    r: int,
) -> R {
    plus(
        w,
        (w.alone)(
            Op::InvSqrt(256),
            (w.dot)(
                Seq::new(64, |d: int| rotated_at(w, q, mask, t, i, h, k, d)),
                Seq::new(64, |d: int| rotated_at(w, key, text_mask, s, i, h, r, d)),
            ),
        ),
        (w.alone)(
            Op::MaskBias,
            (w.dot)(seq![v3(w, mask, i, 0, k)], seq![v3(w, text_mask, i, 0, r)]),
        ),
    )
}

/// What step `k` of the flow hears of channel `c` of the values of the text.
pub open spec fn text_heard<R>(
    w: World<R>,
    q: Expr,
    key: Expr,
    values: Expr,
    mask: Expr,
    text_mask: Expr,
    t: int,
    s: int,
    i: int,
    k: int,
    c: int,
) -> R {
    let scores = Seq::new(
        s as nat,
        |r: int| text_score(w, q, key, mask, text_mask, t, s, i, c / 64, k, r),
    );
    (w.dot)(
        Seq::new(s as nat, |l: int| (w.soft)(scores, l)),
        Seq::new(s as nat, |l: int| v3(w, values, i, l, c)),
    )
}

/// The scores of the flow for the text.
spec fn text_scores(q: Expr, k: Expr, mask: Expr, text_mask: Expr, t: usize, s: usize) -> Expr {
    let asked = rotated(dealt(q, 2, t, 8, 64), mask, t);
    let keys = rotated(dealt(k, 2, s, 8, 64), text_mask, s);
    ap2(
        Op::Add,
        ap1(Op::InvSqrt(256), ap2(Op::MatMul, asked, ap1(Op::SwapLast, keys))),
        text_bias(mask, text_mask, t, s),
    )
}

#[verifier::rlimit(60)]
proof fn lemma_text_scores<R>(
    w: World<R>,
    q: Expr,
    key: Expr,
    mask: Expr,
    text_mask: Expr,
    t: usize,
    s: usize,
    i: int,
    h: int,
    k: int,
    r: int,
)
    requires
        shape_of(w, q) == Shape::D3(2, t, 512),
        shape_of(w, key) == Shape::D3(2, s, 512),
        shape_of(w, mask) == Shape::D3(2, 1, t),
        shape_of(w, text_mask) == Shape::D3(2, 1, s),
        0 <= i < 2,
        0 <= h < 8,
        0 <= k < t,
        0 <= r < s,
    ensures
        shape_of(w, text_scores(q, key, mask, text_mask, t, s)) == Shape::D4(2, 8, t, s),
        v4(w, text_scores(q, key, mask, text_mask, t, s), i, h, k, r) == text_score(
            w,
            q,
            key,
            mask,
            text_mask,
            t as int,
            s as int,
            i,
            h,
            k,
            r,
        ),
{
    let asked = rotated(dealt(q, 2, t, 8, 64), mask, t);
    let keys = rotated(dealt(key, 2, s, 8, 64), text_mask, s);
    let turned = ap1(Op::SwapLast, keys);
    let product = ap2(Op::MatMul, asked, turned);
    let scaled = ap1(Op::InvSqrt(256), product);
    let bias = text_bias(mask, text_mask, t, s);
    lemma_rotated(w, q, mask, t, i, h, k, 0);
    lemma_rotated(w, key, text_mask, s, i, h, r, 0);
    lemma_meaning1(w, Op::SwapLast, keys);
    lemma_meaning2(w, Op::MatMul, asked, turned);
    lemma_meaning1(w, Op::InvSqrt(256), product);
    lemma_text_bias(w, mask, text_mask, t, s, i, h, k, r);
    lemma_meaning2(w, Op::Add, scaled, bias);
    let at = Place { a: i, b: h, c: k, d: r };
    let mk = meaning(w, turned);
    let e = row(meaning(w, asked), at);
    let f = Seq::new(64, |x: int| (mk.at)(shrunk(mk.shape, at.with(1, x))));
    let ask = Seq::new(64, |d: int| rotated_at(w, q, mask, t as int, i, h, k, d));
    let answer = Seq::new(64, |d: int| rotated_at(w, key, text_mask, s as int, i, h, r, d));
    assert forall|d: int| 0 <= d < 64 implies #[trigger] e[d] == ask[d] by {
        lemma_rotated(w, q, mask, t, i, h, k, d);
    }
    assert forall|d: int| 0 <= d < 64 implies #[trigger] f[d] == answer[d] by {
        lemma_rotated(w, key, text_mask, s, i, h, r, d);
        assert(shrunk(mk.shape, at.with(1, d)) == (Place { a: i, b: h, c: d, d: r }));
    }
    assert(e =~= ask);
    assert(f =~= answer);
    assert(shrunk(Shape::D4(2, 8, t, s), at) == at);
}

/// Attention of the flow to the text.
spec fn text_attention(
    q: Expr,
    k: Expr,
    v: Expr,
    mask: Expr,
    text_mask: Expr,
    t: usize,
    s: usize,
) -> Expr {
    gathered(
        ap2(
            Op::MatMul,
            ap1(Op::Softmax, text_scores(q, k, mask, text_mask, t, s)),
            dealt(v, 2, s, 8, 64),
        ),
        2,
        t,
        512,
    )
}

#[verifier::rlimit(60)]
proof fn lemma_text_attention<R>(
    w: World<R>,
    q: Expr,
    key: Expr,
    values: Expr,
    mask: Expr,
    text_mask: Expr,
    t: usize,
    s: usize,
    i: int,
    k: int,
    c: int,
)
    requires
        shape_of(w, q) == Shape::D3(2, t, 512),
        shape_of(w, key) == Shape::D3(2, s, 512),
        shape_of(w, values) == Shape::D3(2, s, 512),
        shape_of(w, mask) == Shape::D3(2, 1, t),
        shape_of(w, text_mask) == Shape::D3(2, 1, s),
        s > 0,
        0 <= i < 2,
        0 <= k < t,
        0 <= c < 512,
    ensures
        shape_of(w, text_attention(q, key, values, mask, text_mask, t, s)) == Shape::D3(
            2,
            t,
            512,
        ),
        v3(w, text_attention(q, key, values, mask, text_mask, t, s), i, k, c) == text_heard(
            w,
            q,
            key,
            values,
            mask,
            text_mask,
            t as int,
            s as int,
            i,
            k,
            c,
        ),
{
    let h = c / 64;
    let d = c % 64;
    let scores = text_scores(q, key, mask, text_mask, t, s);
    let soft = ap1(Op::Softmax, scores);
    let dv = dealt(values, 2, s, 8, 64);
    let heard = ap2(Op::MatMul, soft, dv);
    lemma_text_scores(w, q, key, mask, text_mask, t, s, i, h, k, 0);
    lemma_dealt(w, values, 2, s, 8, 64, 512, i, h, 0, d);
    lemma_meaning1(w, Op::Softmax, scores);
    lemma_meaning2(w, Op::MatMul, soft, dv);
    lemma_gathered(w, heard, 2, t, 8, 64, 512, i, k, c);
    let at = Place { a: i, b: h, c: k, d };
    let mv = meaning(w, dv);
    let e = row(meaning(w, soft), at);
    let f = Seq::new(s as nat, |x: int| (mv.at)(shrunk(mv.shape, at.with(1, x))));
    let list = Seq::new(
        s as nat,
        |r: int| text_score(w, q, key, mask, text_mask, t as int, s as int, i, h, k, r),
    );
    let weights = Seq::new(s as nat, |l: int| (w.soft)(list, l));
    let taken = Seq::new(s as nat, |l: int| v3(w, values, i, l, c));
    assert forall|l: int| 0 <= l < s implies #[trigger] e[l] == weights[l] by {
        let g = row(meaning(w, scores), at.with(0, l));
        assert forall|r: int| 0 <= r < s implies #[trigger] g[r] == list[r] by {
            lemma_text_scores(w, q, key, mask, text_mask, t, s, i, h, k, r);
        }
        assert(g =~= list);
    }
    assert forall|l: int| 0 <= l < s implies #[trigger] f[l] == taken[l] by {
        lemma_dealt(w, values, 2, s, 8, 64, 512, i, h, l, d);
        assert(shrunk(mv.shape, at.with(1, l)) == (Place { a: i, b: h, c: l, d }));
    }
    assert(e =~= weights);
    assert(f =~= taken);
}

/// What holds of a result of attention that is put back into the flow: it is masked,
/// added, normalized among the channels of its step, and masked again.
pub open spec fn puts_back<R>(
    w: World<R>,
    p: CondParts,
    prefix: Seq<char>,
    x: Expr,
    mask: Expr,
    i: int,
    c: int,
    k: int,
) -> bool {
    let valid = v3(w, mask, i, 0, k);
    &&& v3(w, p.sum, i, c, k) == plus(
        w,
        v3(w, x, i, c, k),
        times(w, v3(w, p.out_fc, i, k, c), valid),
    )
    &&& v3(w, p.norm, i, k, c) == normed(
        w,
        channels(w, p.sum, 512, i, k),
        prefix + ".norm.norm"@,
        c,
    )
    &&& v3(w, p.out, i, c, k) == times(w, v3(w, p.norm, i, k, c), valid)
}

proof fn lemma_puts_back<R>(
    w: World<R>,
    prefix: Seq<char>,
    x: Expr,
    out_fc: Expr,
    mask: Expr,
    t: usize,
    i: int,
    c: int,
    k: int,
)
    requires
        shape_of(w, x) == Shape::D3(2, 512, t),
        shape_of(w, out_fc) == Shape::D3(2, t, 512),
        shape_of(w, mask) == Shape::D3(2, 1, t),
        0 <= i < 2,
        0 <= c < 512,
        0 <= k < t,
    ensures
        ({
            let (sum, norm, out) = put_back(prefix, x, out_fc, mask);
            let valid = v3(w, mask, i, 0, k);
            &&& shape_of(w, out) == Shape::D3(2, 512, t)
            &&& v3(w, sum, i, c, k) == plus(
                w,
                v3(w, x, i, c, k),
                times(w, v3(w, out_fc, i, k, c), valid),
            )
            &&& v3(w, norm, i, k, c) == normed(
                w,
                channels(w, sum, 512, i, k),
                prefix + ".norm.norm"@,
                c,
            )
            &&& v3(w, out, i, c, k) == times(w, v3(w, norm, i, k, c), valid)
        }),
{
    let turned = ap1(Op::SwapLast, out_fc);
    let kept = ap2(Op::Mul, turned, mask);
    let sum = ap2(Op::Add, x, kept);
    lemma_meaning1(w, Op::SwapLast, out_fc);
    lemma_meaning2(w, Op::Mul, turned, mask);
    lemma_meaning2(w, Op::Add, x, kept);
    assert(shape_of(w, sum) == Shape::D3(2, 512, t));
    law_channel_norm(w, prefix + ".norm.norm"@, sum, 2, 512, t, i, k, c);
    let norm = put_back(prefix, x, out_fc, mask).1;
    let up = ap1(Op::SwapLast, norm);
    lemma_meaning1(w, Op::SwapLast, norm);
    lemma_meaning2(w, Op::Mul, up, mask);
    assert(shrunk(Shape::D3(2, 512, t), spot3(i, c, k)) == spot3(i, c, k));
    assert(shrunk(Shape::D3(2, 1, t), spot3(i, c, k)) == spot3(i, 0, k));
}

/// The text acts on the flow by attention: the queries come from the flow, the keys and
/// the values from the text, and queries and keys are rotated by their positions.
#[verifier::rlimit(60)]
pub proof fn law_text_cond<R>(
    w: World<R>,
    block: int,
    x: Expr,
    text: Expr,
    mask: Expr,
    text_mask: Expr,
    t: usize,
    s: usize,
    i: int,
    k: int,
    l: int,
    o: int,
)
    requires
        0 <= block < 4,
        shape_of(w, x) == Shape::D3(2, 512, t),
        shape_of(w, text) == Shape::D3(2, 256, s),
        shape_of(w, mask) == Shape::D3(2, 1, t),
        shape_of(w, text_mask) == Shape::D3(2, 1, s),
        0 <= i < 2,
        0 <= k < t,
        0 <= l < s,
        0 <= o < 512,
    ensures
        ({
            let p = text_cond(block, x, text, mask, text_mask, t, s);
            let at = part_at(block, 3);
            &&& v3(w, p.q, i, k, o) == block_linear(
                w,
                block,
                6,
                at + ".attn.W_query.linear.bias"@,
                channels(w, x, 512, i, k),
                o,
            )
            &&& v3(w, p.k, i, l, o) == block_linear(
                w,
                block,
                7,
                at + ".attn.W_key.linear.bias"@,
                channels(w, text, 256, i, l),
                o,
            )
            &&& v3(w, p.v, i, l, o) == block_linear(
                w,
                block,
                8,
                at + ".attn.W_value.linear.bias"@,
                channels(w, text, 256, i, l),
                o,
            )
            &&& v3(w, p.out_fc, i, k, o) == block_linear(
                w,
                block,
                15,
                at + ".attn.out_fc.linear.bias"@,
                Seq::new(
                    512,
                    |c: int|
                        text_heard(
                            w,
                            p.q,
                            p.k,
                            p.v,
                            mask,
                            text_mask,
                            t as int,
                            s as int,
                            i,
                            k,
                            c,
                        ),
                ),
                o,
            )
            &&& puts_back(w, p, at, x, mask, i, o, k)
            &&& shape_of(w, p.out) == Shape::D3(2, 512, t)
        }),
{
    let p = text_cond(block, x, text, mask, text_mask, t, s);
    let at = part_at(block, 3);
    let first = 3384 + 45 * block;
    assert(3384 + block * 45 == first);
    let up = ap1(Op::SwapLast, x);
    let turned = ap1(Op::SwapLast, text);
    lemma_meaning1(w, Op::SwapLast, x);
    lemma_meaning1(w, Op::SwapLast, text);
    law_projected(w, first + 6, at, ".attn.W_query.linear.bias", 512, 512, up, 2, t, i, k, o);
    law_projected(w, first + 7, at, ".attn.W_key.linear.bias", 256, 512, turned, 2, s, i, l, o);
    law_projected(w, first + 8, at, ".attn.W_value.linear.bias", 256, 512, turned, 2, s, i, l, o);
    assert(tail(w, up, 512, i, k) =~= channels(w, x, 512, i, k));
    assert(tail(w, turned, 256, i, l) =~= channels(w, text, 256, i, l));
    let heard = text_attention(p.q, p.k, p.v, mask, text_mask, t, s);
    let each = Seq::new(
        512,
        |c: int|
            text_heard(w, p.q, p.k, p.v, mask, text_mask, t as int, s as int, i, k, c),
    );
    assert forall|c: int| 0 <= c < 512 implies #[trigger] tail(w, heard, 512, i, k)[c]
        == each[c] by {
        lemma_text_attention(w, p.q, p.k, p.v, mask, text_mask, t, s, i, k, c);
    }
    assert(tail(w, heard, 512, i, k) =~= each);
    lemma_text_attention(w, p.q, p.k, p.v, mask, text_mask, t, s, i, k, o);
    law_projected(w, first + 15, at, ".attn.out_fc.linear.bias", 512, 512, heard, 2, t, i, k, o);
    lemma_puts_back(w, at, x, p.out_fc, mask, t, i, o, k);
}

// ---------------------------------------------------------------------------
// Style
// ---------------------------------------------------------------------------

/// The style acts on the flow by attention: the queries come from the flow, the keys from
/// the keys, and what is taken from the values.
#[verifier::rlimit(60)]
pub proof fn law_style_cond<R>(
    w: World<R>,
    block: int,
    x: Expr,
    keys: Expr,
    values: Expr,
    mask: Expr,
    t: usize,
    i: int,
    k: int,
    l: int,
    d: int,
    o: int,
)
    requires
        0 <= block < 4,
        shape_of(w, x) == Shape::D3(2, 512, t),
        shape_of(w, keys) == Shape::D3(2, 50, 256),
        shape_of(w, values) == Shape::D3(2, 50, 256),
        shape_of(w, mask) == Shape::D3(2, 1, t),
        0 <= i < 2,
        0 <= k < t,
        0 <= l < 50,
        0 <= d < 256,
        0 <= o < 512,
    ensures
        ({
            let p = style_cond(block, x, keys, values, mask, t);
            let at = part_at(block, 5);
            &&& v3(w, p.q, i, k, d) == block_linear(
                w,
                block,
                21,
                at + ".attention.W_query.linear.bias"@,
                channels(w, x, 512, i, k),
                d,
            )
            &&& v3(w, p.k, i, l, d) == block_linear(
                w,
                block,
                22,
                at + ".attention.W_key.linear.bias"@,
                tail(w, keys, 256, i, l),
                d,
            )
            &&& v3(w, p.v, i, l, d) == block_linear(
                w,
                block,
                23,
                at + ".attention.W_value.linear.bias"@,
                tail(w, values, 256, i, l),
                d,
            )
            &&& v3(w, p.out_fc, i, k, o) == block_linear(
                w,
                block,
                24,
                at + ".attention.out_fc.linear.bias"@,
                Seq::new(
                    256,
                    |c: int| style_heard(w, p.q, p.k, p.v, 50, 128, 256, i, k, c),
                ),
                o,
            )
            &&& puts_back(w, p, at, x, mask, i, o, k)
            &&& shape_of(w, p.out) == Shape::D3(2, 512, t)
        }),
{
    let p = style_cond(block, x, keys, values, mask, t);
    let at = part_at(block, 5);
    let first = 3384 + 45 * block;
    assert(3384 + block * 45 == first);
    let up = ap1(Op::SwapLast, x);
    lemma_meaning1(w, Op::SwapLast, x);
    law_projected(w, first + 21, at, ".attention.W_query.linear.bias", 512, 256, up, 2, t, i, k, d);
    law_projected(w, first + 22, at, ".attention.W_key.linear.bias", 256, 256, keys, 2, 50, i, l, d);
    law_projected(
        w,
        first + 23,
        at,
        ".attention.W_value.linear.bias",
        256,
        256,
        values,
        2,
        50,
        i,
        l,
        d,
    );
    assert(tail(w, up, 512, i, k) =~= channels(w, x, 512, i, k));
    let heard = style_attention(p.q, p.k, p.v, 2, t, 50, 128, 256);
    let each = Seq::new(256, |c: int| style_heard(w, p.q, p.k, p.v, 50, 128, 256, i, k, c));
    assert forall|c: int| 0 <= c < 256 implies #[trigger] tail(w, heard, 256, i, k)[c]
        == each[c] by {
        law_style_attention(w, p.q, p.k, p.v, 2, t, 50, 128, 256, i, k, c);
    }
    assert(tail(w, heard, 256, i, k) =~= each);
    law_style_attention(w, p.q, p.k, p.v, 2, t, 50, 128, 256, i, k, d);
    law_projected(
        w,
        first + 24,
        at,
        ".attention.out_fc.linear.bias",
        256,
        512,
        heard,
        2,
        t,
        i,
        k,
        o,
    );
    lemma_puts_back(w, at, x, p.out_fc, mask, t, i, o, k);
}

} // verus!
