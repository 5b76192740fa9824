//! What attention to a style computes, element by element.

use vstd::prelude::*;

use crate::model::candle::attention_laws::{lemma_below, lemma_flat_place, lemma_parts};
use crate::model::candle::cross::{dealt, gathered, style_attention};
use crate::model::candle::graph::{ap1, ap2, Expr, Op, Shape};
use crate::model::candle::layers::embedded;
use crate::model::candle::meaning::{
    back, lemma_meaning1, lemma_meaning2, meaning, number, place, row, shrunk, spot1, spot2, spot3,
    Place, World,
};
use crate::model::candle::values::{shape_of, times, v2, v3, v4};

verus! {

/// Dealing the channels out to heads: channel `d` of head `h` is channel `h * dim + d`.
pub proof fn lemma_dealt<R>(
    w: World<R>,
    x: Expr,
    b: usize,
    n: usize,
    heads: usize,
    dim: usize,
    width: usize,
    i: int,
    h: int,
    k: int,
    d: int,
)
    requires
        width == heads * dim,
        shape_of(w, x) == Shape::D3(b, n, width),
        0 <= i < b,
        0 <= h < heads,
        0 <= k < n,
        0 <= d < dim,
    ensures
        shape_of(w, dealt(x, b, n, heads, dim)) == Shape::D4(b, heads, n, dim),
        v4(w, dealt(x, b, n, heads, dim), i, h, k, d) == v3(w, x, i, k, h * dim + d),
{
    let four = Op::Reshape(Shape::D4(b, n, heads, dim));
    lemma_meaning1(w, four, x);
    lemma_meaning1(w, Op::SwapMiddle, ap1(four, x));
    lemma_flat_place(b, n, heads, dim, width, i, k, h, d);
}

/// Putting the heads together again.
pub proof fn lemma_gathered<R>(
    w: World<R>,
    x: Expr,
    b: usize,
    n: usize,
    heads: usize,
    dim: usize,
    width: usize,
    i: int,
    k: int,
    c: int,
)
    requires
        width == heads * dim,
        dim > 0,
        shape_of(w, x) == Shape::D4(b, heads, n, dim),
        0 <= i < b,
        0 <= k < n,
        0 <= c < width,
    ensures
        shape_of(w, gathered(x, b, n, width)) == Shape::D3(b, n, width),
        v3(w, gathered(x, b, n, width), i, k, c) == v4(
            w,
            x,
            i,
            c / (dim as int),
            k,
            c % (dim as int),
        ),
        0 <= c / (dim as int) < heads,
        0 <= c % (dim as int) < dim,
        c == (c / (dim as int)) * dim + c % (dim as int),
{
    let three = Op::Reshape(Shape::D3(b, n, width));
    lemma_meaning1(w, Op::SwapMiddle, x);
    lemma_meaning1(w, three, ap1(Op::SwapMiddle, x));
    let h = c / (dim as int);
    let d = c % (dim as int);
    assert(c == h * dim + d && 0 <= d < dim && 0 <= h < heads) by (nonlinear_arith)
        requires
            h == c / (dim as int),
            d == c % (dim as int),
            dim > 0,
            0 <= c < width,
            width == heads * dim,
    ;
    lemma_flat_place(b, n, heads, dim, width, i, k, h, d);
}

/// The score of step `k` for row `r` of the style, in head `h`: the query against the
/// squashed key, over the square root of the width of all heads.
pub open spec fn style_score<R>(
    w: World<R>,
    q: Expr,
    key: Expr,
    dim: int,
    width: usize,
    i: int,
    h: int,
    k: int,
    r: int,
) -> R {
    (w.alone)(
        Op::InvSqrt(width),
        (w.dot)(
            Seq::new(dim as nat, |d: int| v3(w, q, i, k, h * dim + d)),
            Seq::new(dim as nat, |d: int| (w.alone)(Op::Tanh, v3(w, key, i, r, h * dim + d))),
        ),
    )
}

/// What step `k` hears of channel `c` of the values: their products with the softmax of
/// the scores of the head that the channel belongs to.
pub open spec fn style_heard<R>(
    w: World<R>,
    q: Expr,
    key: Expr,
    values: Expr,
    m: int,
    dim: int,
    width: usize,
    i: int,
    k: int,
    c: int,
) -> R {
    let scores = Seq::new(m as nat, |r: int| style_score(w, q, key, dim, width, i, c / dim, k, r));
    (w.dot)(
        Seq::new(m as nat, |l: int| (w.soft)(scores, l)),
        Seq::new(m as nat, |l: int| v3(w, values, i, l, c)),
    )
}

/// The scores of attention to a style.
spec fn style_scores(q: Expr, k: Expr, b: usize, n: usize, m: usize, dim: usize, width: usize) ->
    Expr {
    let kt = ap1(Op::Tanh, ap1(Op::SwapLast, dealt(k, b, m, 2, dim)));
    ap1(Op::InvSqrt(width), ap2(Op::MatMul, dealt(q, b, n, 2, dim), kt))
}

#[verifier::rlimit(40)]
proof fn lemma_style_scores<R>(
    w: World<R>,
    q: Expr,
    key: Expr,
    b: usize,
    n: usize,
    m: usize,
    dim: usize,
    width: usize,
    i: int,
    h: int,
    k: int,
    r: int,
)
    requires
        width == 2 * dim,
        dim > 0,
        shape_of(w, q) == Shape::D3(b, n, width),
        shape_of(w, key) == Shape::D3(b, m, width),
        0 <= i < b,
        0 <= h < 2,
        0 <= k < n,
        0 <= r < m,
    ensures
        shape_of(w, style_scores(q, key, b, n, m, dim, width)) == Shape::D4(b, 2, n, m),
        v4(w, style_scores(q, key, b, n, m, dim, width), i, h, k, r) == style_score(
            w,
            q,
            key,
            dim as int,
            width,
            i,
            h,
            k,
            r,
        ),
{
    let dq = dealt(q, b, n, 2, dim);
    let dk = dealt(key, b, m, 2, dim);
    let turned = ap1(Op::SwapLast, dk);
    let kt = ap1(Op::Tanh, turned);
    let product = ap2(Op::MatMul, dq, kt);
    lemma_dealt(w, q, b, n, 2, dim, width, i, h, k, 0);
    lemma_dealt(w, key, b, m, 2, dim, width, i, h, r, 0);
    lemma_meaning1(w, Op::SwapLast, dk);
    lemma_meaning1(w, Op::Tanh, turned);
    lemma_meaning2(w, Op::MatMul, dq, kt);
    lemma_meaning1(w, Op::InvSqrt(width), product);
    let at = Place { a: i, b: h, c: k, d: r };
    let mk = meaning(w, kt);
    let e = row(meaning(w, dq), at);
    let f = Seq::new(dim as nat, |x: int| (mk.at)(shrunk(mk.shape, at.with(1, x))));
    let ask = Seq::new(dim as nat, |d: int| v3(w, q, i, k, h * dim as int + d));
    let squashed = Seq::new(
        dim as nat,
        |d: int| (w.alone)(Op::Tanh, v3(w, key, i, r, h * dim as int + d)),
    );
    assert forall|d: int| 0 <= d < dim implies #[trigger] e[d] == ask[d] by {
        lemma_dealt(w, q, b, n, 2, dim, width, i, h, k, d);
    }
    assert forall|d: int| 0 <= d < dim implies #[trigger] f[d] == squashed[d] by {
        lemma_dealt(w, key, b, m, 2, dim, width, i, h, r, d);
        assert(shrunk(mk.shape, at.with(1, d)) == (Place { a: i, b: h, c: d, d: r }));
    }
    assert(e =~= ask);
    assert(f =~= squashed);
}

/// Attention to a style takes from every row of the values by how well its key answers.
#[verifier::rlimit(40)]
pub proof fn law_style_attention<R>(
    w: World<R>,
    q: Expr,
    key: Expr,
    values: Expr,
    b: usize,
    n: usize,
    m: usize,
    dim: usize,
    width: usize,
    i: int,
    k: int,
    c: int,
)
    requires
        width == 2 * dim,
        dim > 0,
        m > 0,
        shape_of(w, q) == Shape::D3(b, n, width),
        shape_of(w, key) == Shape::D3(b, m, width),
        shape_of(w, values) == Shape::D3(b, m, width),
        0 <= i < b,
        0 <= k < n,
        0 <= c < width,
    ensures
        shape_of(w, style_attention(q, key, values, b, n, m, dim, width)) == Shape::D3(
            b,
            n,
            width,
        ),
        v3(w, style_attention(q, key, values, b, n, m, dim, width), i, k, c) == style_heard(
            w,
            q,
            key,
            values,
            m as int,
            dim as int,
            width,
            i,
            k,
            c,
        ),
{
    let h = c / (dim as int);
    let d = c % (dim as int);
    assert(c == h * dim + d && 0 <= d < dim && 0 <= h < 2) by (nonlinear_arith)
        requires
            h == c / (dim as int),
            d == c % (dim as int),
            dim > 0,
            0 <= c < 2 * dim,
    ;
    let scores = style_scores(q, key, b, n, m, dim, width);
    let soft = ap1(Op::Softmax, scores);
    let dv = dealt(values, b, m, 2, dim);
    let heard = ap2(Op::MatMul, soft, dv);
    lemma_style_scores(w, q, key, b, n, m, dim, width, i, h, k, 0);
    lemma_dealt(w, values, b, m, 2, dim, width, i, h, 0, d);
    lemma_meaning1(w, Op::Softmax, scores);
    lemma_meaning2(w, Op::MatMul, soft, dv);
    lemma_gathered(w, heard, b, n, 2, dim, width, i, k, c);
    let at = Place { a: i, b: h, c: k, d };
    let mv = meaning(w, dv);
    let e = row(meaning(w, soft), at);
    let f = Seq::new(m as nat, |x: int| (mv.at)(shrunk(mv.shape, at.with(1, x))));
    let list = Seq::new(
        m as nat,
        |r: int| style_score(w, q, key, dim as int, width, i, h, k, r),
    );
    let taken = Seq::new(m as nat, |l: int| v3(w, values, i, l, c));
    let weights = Seq::new(m as nat, |l: int| (w.soft)(list, l));
    assert forall|l: int| 0 <= l < m implies #[trigger] e[l] == weights[l] by {
        let g = row(meaning(w, scores), at.with(0, l));
        assert forall|r: int| 0 <= r < m implies #[trigger] g[r] == list[r] by {
            lemma_style_scores(w, q, key, b, n, m, dim, width, i, h, k, r);
        }
        assert(g =~= list);
    }
    assert forall|l: int| 0 <= l < m implies #[trigger] f[l] == taken[l] by {
        lemma_dealt(w, values, b, m, 2, dim, width, i, h, l, d);
        assert(shrunk(mv.shape, at.with(1, l)) == (Place { a: i, b: h, c: l, d }));
    }
    assert(e =~= weights);
    assert(f =~= taken);
}

/// The embedding of an id is its row of the table, under the mask.
#[verifier::rlimit(40)]
pub proof fn law_embedded<R>(
    w: World<R>,
    table: Expr,
    ids: Expr,
    mask: Expr,
    vocab: usize,
    b: usize,
    t: usize,
    n: usize,
    i: int,
    c: int,
    k: int,
)
    requires
        shape_of(w, table) == Shape::D2(vocab, n),
        shape_of(w, ids) == Shape::D2(b, t),
        shape_of(w, mask) == Shape::D3(b, 1, t),
        b * t <= usize::MAX,
        0 <= i < b,
        0 <= c < n,
        0 <= k < t,
    ensures
        shape_of(w, embedded(table, ids, mask, b, t, n)) == Shape::D3(b, n, t),
        v3(w, embedded(table, ids, mask, b, t, n), i, c, k) == times(
            w,
            v2(w, table, (w.index)(v2(w, ids, i, k)), c),
            v3(w, mask, i, 0, k),
        ),
{
    let flat = (b * t) as usize;
    let line = Op::Reshape(Shape::D1(flat));
    let three = Op::Reshape(Shape::D3(b, t, n));
    let e1 = ap1(line, ids);
    let e2 = ap2(Op::Embed, table, e1);
    let e3 = ap1(three, e2);
    let e4 = ap1(Op::SwapLast, e3);
    lemma_meaning1(w, line, ids);
    lemma_meaning2(w, Op::Embed, table, e1);
    lemma_meaning1(w, three, e2);
    lemma_meaning1(w, Op::SwapLast, e3);
    lemma_meaning2(w, Op::Mul, e4, mask);
    let at = i * t + k;
    assert(0 <= at < flat) by (nonlinear_arith)
        requires
            at == i * t + k,
            flat == b * t,
            0 <= i < b,
            0 <= k < t,
    ;
    assert(place(Shape::D2(b, t), number(Shape::D1(flat), spot1(at))) == spot2(i, k)) by {
        let s = Shape::D1(flat);
        let two = Shape::D2(b, t);
        assert(back(s, 0) == flat && back(s, 1) == 1 && back(s, 2) == 1);
        assert(back(two, 0) == t && back(two, 1) == b && back(two, 2) == 1);
        assert(number(s, spot1(at)) == 0 * flat + at);
        assert(0 * flat == 0) by (nonlinear_arith);
        lemma_parts(at, t as int, i, k);
        lemma_below(i, b as int);
    }
    assert(place(Shape::D2(flat, n), number(Shape::D3(b, t, n), spot3(i, k, c))) == spot2(
        at,
        c,
    )) by {
        let s = Shape::D3(b, t, n);
        let two = Shape::D2(flat, n);
        assert(back(s, 0) == n && back(s, 1) == t && back(s, 2) == b);
        assert(back(two, 0) == n && back(two, 1) == flat && back(two, 2) == 1);
        assert(0 * b == 0) by (nonlinear_arith);
        lemma_parts(at * n + c, n as int, at, c);
        lemma_below(at, flat as int);
    }
    assert(v3(w, e3, i, k, c) == v2(w, e2, at, c));
    assert(shrunk(Shape::D3(b, n, t), spot3(i, c, k)) == spot3(i, c, k));
    assert(shrunk(Shape::D3(b, 1, t), spot3(i, c, k)) == spot3(i, 0, k));
}

} // verus!
