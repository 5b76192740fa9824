//! What self-attention and the encoder built from it compute, element by element.

use vstd::arithmetic::div_mod::lemma_fundamental_div_mod_converse;
use vstd::prelude::*;

use crate::model::candle::attention::{
    attention_fits, attn_mask, attn_parts, encoder_parts, encoder_value, law_weights_align,
    rel_embeddings, split_heads, to_absolute, to_relative, AttnParts, AttnSpec, EncoderParts,
};
use crate::model::candle::graph::{ap1, ap2, Expr, Op, Shape};
use crate::model::candle::layer_laws::{
    channels, kernel_row, law_channel_norm, law_pointwise, normed,
};
use crate::model::candle::meaning::{
    back, lemma_meaning1, lemma_meaning2, meaning, number, place, row, shrunk, spot3, Place, World,
};
use crate::model::candle::values::{plus, shape_of, times, v3, v4, w1, w3};
use crate::strings::decimal;

verus! {

/// A number taken apart into a quotient and a remainder.
pub proof fn lemma_parts(n: int, d: int, q: int, r: int)
    requires
        0 <= r < d,
        n == q * d + r,
    ensures
        n / d == q,
        n % d == r,
{
    lemma_fundamental_div_mod_converse(n, d, q, r);
}

/// A number below another.
pub proof fn lemma_below(i: int, b: int)
    requires
        0 <= i < b,
    ensures
        i / b == 0,
        i % b == i,
{
    assert(0 * b == 0) by (nonlinear_arith);
    lemma_parts(i, b, 0, i);
}

/// Channel `d` of head `h` is channel `h * dim + d` of all.
proof fn lemma_head_place(
    b: usize,
    heads: usize,
    dim: usize,
    hidden: usize,
    t: usize,
    i: int,
    h: int,
    d: int,
    k: int,
)
    requires
        hidden == heads * dim,
        0 <= i < b,
        0 <= h < heads,
        0 <= d < dim,
        0 <= k < t,
    ensures
        place(
            Shape::D3(b, hidden, t),
            number(Shape::D4(b, heads, dim, t), (Place { a: i, b: h, c: d, d: k })),
        ) == spot3(i, h * dim + d, k),
        0 <= h * dim + d < hidden,
        place(
            Shape::D4(b, heads, dim, t),
            number(Shape::D3(b, hidden, t), spot3(i, h * dim + d, k)),
        ) == (Place { a: i, b: h, c: d, d: k }),
{
    let four = Shape::D4(b, heads, dim, t);
    let three = Shape::D3(b, hidden, t);
    let c = h * dim + d;
    assert(0 <= c < hidden) by (nonlinear_arith)
        requires
            c == h * dim + d,
            hidden == heads * dim,
            0 <= h < heads,
            0 <= d < dim,
    ;
    let rows = i * hidden + c;
    let n = rows * t + k;
    assert(number(four, (Place { a: i, b: h, c: d, d: k })) == n) by {
        assert(back(four, 0) == t && back(four, 1) == dim && back(four, 2) == heads);
        assert((i * heads + h) * dim + d == rows) by (nonlinear_arith)
            requires
                rows == i * hidden + c,
                c == h * dim + d,
                hidden == heads * dim,
        ;
    }
    assert(number(three, spot3(i, c, k)) == n) by {
        assert(back(three, 0) == t && back(three, 1) == hidden && back(three, 2) == b);
        assert(0 * b == 0) by (nonlinear_arith);
    }
    lemma_parts(n, t as int, rows, k);
    lemma_parts(rows, hidden as int, i, c);
    lemma_below(i, b as int);
    assert(rows == (i * heads + h) * dim + d) by (nonlinear_arith)
        requires
            rows == i * hidden + c,
            c == h * dim + d,
            hidden == heads * dim,
    ;
    lemma_parts(rows, dim as int, i * heads + h, d);
    lemma_parts(i * heads + h, heads as int, i, h);
}

/// Dealing the channels out to heads.
pub proof fn lemma_split_heads<R>(
    w: World<R>,
    p: AttnSpec,
    x: Expr,
    b: usize,
    t: usize,
    i: int,
    h: int,
    k: int,
    d: int,
)
    requires
        p.wf(),
        shape_of(w, x) == Shape::D3(b, p.hidden, t),
        0 <= i < b,
        0 <= h < p.heads,
        0 <= d < p.head_dim,
        0 <= k < t,
    ensures
        shape_of(w, split_heads(p, x, b, t)) == Shape::D4(b, p.heads, t, p.head_dim),
        v4(w, split_heads(p, x, b, t), i, h, k, d) == v3(w, x, i, h * p.head_dim + d, k),
{
    let four = Op::Reshape(Shape::D4(b, p.heads, p.head_dim, t));
    lemma_meaning1(w, four, x);
    lemma_meaning1(w, Op::SwapLast, ap1(four, x));
    lemma_head_place(b, p.heads, p.head_dim, p.hidden, t, i, h, d, k);
}

// ---------------------------------------------------------------------------
// Relative positions
// ---------------------------------------------------------------------------

/// The element of a table of relative positions: zero beyond four steps.
pub open spec fn relative<R>(w: World<R>, name: Seq<char>, away: int, d: int) -> R {
    if -4 <= away <= 4 {
        w3(w, name, 0, away + 4, d)
    } else {
        (w.whole)(0)
    }
}

/// The embeddings of `t` steps are those of the relative positions from `1 - t` on.
pub proof fn law_relative_embeddings<R>(
    w: World<R>,
    name: Seq<char>,
    dim: usize,
    t: usize,
    r: int,
    d: int,
)
    requires
        attention_fits(t as int),
        0 <= r < 2 * t - 1,
        0 <= d < dim,
    ensures
        ({
            let e = rel_embeddings(Expr::Weight(name, Shape::D3(1, 9, dim)), t);
            &&& shape_of(w, e) == Shape::D3(1, (2 * t - 1) as usize, dim)
            &&& v3(w, e, 0, r, d) == relative(w, name, r - (t - 1), d)
        }),
{
    lemma_room(t as int);
    let table = Expr::Weight(name, Shape::D3(1, 9, dim));
    let pad: usize = if t > 5 {
        (t - 5) as usize
    } else {
        0
    };
    let start: usize = if t < 5 {
        (5 - t) as usize
    } else {
        0
    };
    let grow = Op::PadZeros { dim: 1, left: pad, right: pad };
    let take = Op::Narrow { dim: 1, start, len: (2 * t - 1) as usize };
    lemma_meaning1(w, grow, table);
    lemma_meaning1(w, take, ap1(grow, table));
    lemma_meaning1(w, take, table);
}

/// What fits of the tables of `t` steps.
proof fn lemma_room(t: int)
    requires
        attention_fits(t),
    ensures
        2 * t - 1 <= usize::MAX,
        2 * t <= usize::MAX,
        t + 1 <= usize::MAX,
        t * 2 * t <= usize::MAX,
        t * 2 * t + (t - 1) <= usize::MAX,
        t * (2 * t - 1) + t <= usize::MAX,
        t * (2 * t - 1) >= 0,
        t * 2 * t == t * (2 * t),
{
    assert(2 * t <= 2 * t * t && t * 2 * t == 2 * t * t && t * (2 * t - 1) == 2 * t * t - t && t * (
    2 * t - 1) >= 0 && t * 2 * t == t * (2 * t)) by (nonlinear_arith)
        requires
            0 < t,
    ;
}

/// Rows laid out one after the other.
pub proof fn lemma_flat_place(
    b: usize,
    h: usize,
    m: usize,
    n: usize,
    mn: usize,
    i: int,
    j: int,
    k: int,
    l: int,
)
    requires
        mn == m * n,
        0 <= i < b,
        0 <= j < h,
        0 <= k < m,
        0 <= l < n,
    ensures
        place(Shape::D4(b, h, m, n), number(Shape::D3(b, h, mn), spot3(i, j, k * n + l))) == (Place {
            a: i,
            b: j,
            c: k,
            d: l,
        }),
        place(Shape::D3(b, h, mn), number(Shape::D4(b, h, m, n), (Place { a: i, b: j, c: k, d: l })))
            == spot3(i, j, k * n + l),
        0 <= k * n + l < mn,
{
    let four = Shape::D4(b, h, m, n);
    let three = Shape::D3(b, h, mn);
    let flat = k * n + l;
    assert(0 <= flat < mn) by (nonlinear_arith)
        requires
            flat == k * n + l,
            mn == m * n,
            0 <= k < m,
            0 <= l < n,
    ;
    let plane = i * h + j;
    let rows = plane * m + k;
    let at = plane * mn + flat;
    assert(at == rows * n + l) by (nonlinear_arith)
        requires
            at == plane * mn + flat,
            mn == m * n,
            flat == k * n + l,
            rows == plane * m + k,
    ;
    assert(number(three, spot3(i, j, flat)) == at) by {
        assert(back(three, 0) == mn && back(three, 1) == h && back(three, 2) == b);
        assert(0 * b == 0) by (nonlinear_arith);
    }
    assert(number(four, (Place { a: i, b: j, c: k, d: l })) == at) by {
        assert(back(four, 0) == n && back(four, 1) == m && back(four, 2) == h);
    }
    lemma_parts(at, n as int, rows, l);
    lemma_parts(rows, m as int, plane, k);
    lemma_parts(plane, h as int, i, j);
    lemma_parts(at, mn as int, plane, flat);
    lemma_below(i, b as int);
}

/// A score for a relative position goes to the step that is so far away.
pub proof fn law_to_absolute<R>(
    w: World<R>,
    x: Expr,
    b: usize,
    h: usize,
    t: usize,
    i: int,
    j: int,
    k: int,
    l: int,
)
    requires
        attention_fits(t as int),
        shape_of(w, x) == Shape::D4(b, h, t, (2 * t - 1) as usize),
        0 <= i < b,
        0 <= j < h,
        0 <= k < t,
        0 <= l < t,
    ensures
        shape_of(w, to_absolute(x, b, h, t)) == Shape::D4(b, h, t, t),
        v4(w, to_absolute(x, b, h, t), i, j, k, l) == v4(w, x, i, j, k, t - 1 + (l - k)),
{
    lemma_room(t as int);
    let n = (2 * t - 1) as usize;
    let longer = (t * 2 * t + (t - 1)) as usize;
    let x3 = rows_in_line(x, b, h, t);
    let o4 = Op::Reshape(Shape::D4(b, h, (t + 1) as usize, n));
    let o5 = Op::Narrow { dim: 2, start: 0, len: t };
    let o6 = Op::Narrow { dim: 3, start: (t - 1) as usize, len: t };
    let x4 = ap1(o4, x3);
    let x5 = ap1(o5, x4);
    lemma_meaning1(w, o4, x3);
    lemma_meaning1(w, o5, x4);
    lemma_meaning1(w, o6, x5);
    let col = t - 1 + (l - k);
    let at = k * (2 * t - 1) + (t - 1 + l);
    assert(at == k * (2 * t) + col) by (nonlinear_arith)
        requires
            at == k * (2 * t - 1) + (t - 1 + l),
            col == t - 1 + (l - k),
    ;
    lemma_rows_in_line(w, x, b, h, t, i, j, k, col);
    assert((t + 1) * (2 * t - 1) == t * 2 * t + (t - 1)) by (nonlinear_arith);
    lemma_flat_place(b, h, (t + 1) as usize, n, longer, i, j, k, t - 1 + l);
    assert(v4(w, x4, i, j, k, t - 1 + l) == v3(w, x3, i, j, at));
}

/// Rows of `2t - 1`, each with a zero behind it, in one line, and `t - 1` zeros behind.
spec fn rows_in_line(x: Expr, b: usize, h: usize, t: usize) -> Expr {
    let x = ap1(Op::PadZeros { dim: 3, left: 0, right: 1 }, x);
    let x = ap1(Op::Reshape(Shape::D3(b, h, (t * 2 * t) as usize)), x);
    ap1(Op::PadZeros { dim: 2, left: 0, right: (t - 1) as usize }, x)
}

proof fn lemma_rows_in_line<R>(
    w: World<R>,
    x: Expr,
    b: usize,
    h: usize,
    t: usize,
    i: int,
    j: int,
    k: int,
    col: int,
)
    requires
        attention_fits(t as int),
        shape_of(w, x) == Shape::D4(b, h, t, (2 * t - 1) as usize),
        0 <= i < b,
        0 <= j < h,
        0 <= k < t,
        0 <= col < 2 * t - 1,
    ensures
        shape_of(w, rows_in_line(x, b, h, t)) == Shape::D3(
            b,
            h,
            (t * 2 * t + (t - 1)) as usize,
        ),
        v3(w, rows_in_line(x, b, h, t), i, j, k * (2 * t) + col) == v4(w, x, i, j, k, col),
{
    lemma_room(t as int);
    let m = (2 * t) as usize;
    let flat = (t * 2 * t) as usize;
    let o1 = Op::PadZeros { dim: 3, left: 0, right: 1 };
    let o2 = Op::Reshape(Shape::D3(b, h, flat));
    let o3 = Op::PadZeros { dim: 2, left: 0, right: (t - 1) as usize };
    let x1 = ap1(o1, x);
    let x2 = ap1(o2, x1);
    lemma_meaning1(w, o1, x);
    lemma_meaning1(w, o2, x1);
    lemma_meaning1(w, o3, x2);
    lemma_flat_place(b, h, t, m, flat, i, j, k, col);
    let at = k * (2 * t) + col;
    assert(v3(w, ap1(o3, x2), i, j, at) == v3(w, x2, i, j, at));
    assert(v3(w, x2, i, j, at) == v4(w, x1, i, j, k, col));
}

/// The weight of a step goes to the relative position that it stands at; where no step
/// stands, it is zero.
pub proof fn law_to_relative<R>(
    w: World<R>,
    x: Expr,
    b: usize,
    h: usize,
    t: usize,
    i: int,
    j: int,
    k: int,
    r: int,
)
    requires
        attention_fits(t as int),
        shape_of(w, x) == Shape::D4(b, h, t, t),
        0 <= i < b,
        0 <= j < h,
        0 <= k < t,
        0 <= r < 2 * t - 1,
    ensures
        shape_of(w, to_relative(x, b, h, t)) == Shape::D4(b, h, t, (2 * t - 1) as usize),
        v4(w, to_relative(x, b, h, t), i, j, k, r) == ({
            let l = k + r - (t - 1);
            if 0 <= l < t {
                v4(w, x, i, j, k, l)
            } else {
                (w.whole)(0)
            }
        }),
{
    lemma_room(t as int);
    let m = (2 * t) as usize;
    let n = (2 * t - 1) as usize;
    let flat = (t * (2 * t - 1)) as usize;
    let longer = (t + t * (2 * t - 1)) as usize;
    let o1 = Op::PadZeros { dim: 3, left: 0, right: (t - 1) as usize };
    let o2 = Op::Reshape(Shape::D3(b, h, flat));
    let o3 = Op::PadZeros { dim: 2, left: t, right: 0 };
    let o4 = Op::Reshape(Shape::D4(b, h, t, m));
    let o5 = Op::Narrow { dim: 3, start: 1, len: n };
    let x1 = ap1(o1, x);
    let x2 = ap1(o2, x1);
    let x3 = ap1(o3, x2);
    let x4 = ap1(o4, x3);
    lemma_meaning1(w, o1, x);
    lemma_meaning1(w, o2, x1);
    lemma_meaning1(w, o3, x2);
    lemma_meaning1(w, o4, x3);
    lemma_meaning1(w, o5, x4);
    let l = k + r - (t - 1);
    let at = k * (2 * t) + (r + 1);
    law_weights_align(t as int, k, r);
    assert(t * (2 * t) == t + t * (2 * t - 1)) by (nonlinear_arith);
    assert(shape_of(w, x3) == Shape::D3(b, h, longer));
    lemma_flat_place(b, h, t, m, longer, i, j, k, r + 1);
    assert(v4(w, x4, i, j, k, r + 1) == v3(w, x3, i, j, at));
    let before = at - t;
    assert(before < flat) by (nonlinear_arith)
        requires
            before == k * (2 * t) + (r + 1) - t,
            flat == t * (2 * t - 1),
            0 <= k < t,
            0 <= r < 2 * t - 1,
    ;
    if before >= 0 {
        let q = before / (2 * t - 1);
        let c = before % (2 * t - 1);
        assert(before == q * (2 * t - 1) + c && 0 <= c < 2 * t - 1 && 0 <= q < t)
            by (nonlinear_arith)
            requires
                q == before / (2 * t - 1),
                c == before % (2 * t - 1),
                0 <= before < flat,
                flat == t * (2 * t - 1),
                t > 0,
        ;
        lemma_flat_place(b, h, t, n, flat, i, j, q, c);
        assert(v3(w, x3, i, j, at) == v3(w, x2, i, j, before));
        assert(v3(w, x2, i, j, before) == v4(w, x1, i, j, q, c));
    }
}

// ---------------------------------------------------------------------------
// One layer of attention
// ---------------------------------------------------------------------------

/// Whether step `k` and step `l` are both valid.
pub open spec fn both<R>(w: World<R>, mask: Expr, i: int, k: int, l: int) -> R {
    (w.dot)(seq![v3(w, mask, i, 0, k)], seq![v3(w, mask, i, 0, l)])
}

/// The mask of pairs of steps.
proof fn lemma_attn_mask<R>(
    w: World<R>,
    mask: Expr,
    b: usize,
    t: usize,
    i: int,
    k: int,
    l: int,
)
    requires
        shape_of(w, mask) == Shape::D3(b, 1, t),
        0 <= i < b,
        0 <= k < t,
        0 <= l < t,
        t * t <= usize::MAX,
    ensures
        shape_of(w, attn_mask(mask, b, t)) == Shape::D4(b, 1, t, t),
        v4(w, attn_mask(mask, b, t), i, 0, k, l) == both(w, mask, i, k, l),
{
    let down = Op::Reshape(Shape::D3(b, t, 1));
    let across = Op::Reshape(Shape::D3(b, 1, t));
    let four = Op::Reshape(Shape::D4(b, 1, t, t));
    let a = ap1(down, mask);
    let c = ap1(across, mask);
    let m = ap2(Op::MatMul, a, c);
    lemma_meaning1(w, down, mask);
    lemma_meaning1(w, across, mask);
    lemma_meaning2(w, Op::MatMul, a, c);
    lemma_meaning1(w, four, m);
    lemma_line_place(b, t, i, k);
    lemma_line_place(b, t, i, l);
    lemma_square_place(b, t, t, i, k, l);
    assert(v4(w, ap1(four, m), i, 0, k, l) == v3(w, m, i, k, l));
    assert(v3(w, a, i, k, 0) == v3(w, mask, i, 0, k));
    assert(v3(w, c, i, 0, l) == v3(w, mask, i, 0, l));
    let ma = meaning(w, a);
    let mc = meaning(w, c);
    assert(row(ma, spot3(i, k, l)) =~= seq![v3(w, mask, i, 0, k)]);
    assert(Seq::new(1, |q: int| (mc.at)(shrunk(mc.shape, spot3(i, k, l).with(1, q)))) =~= seq![
        v3(w, mask, i, 0, l),
    ]) by {
        assert(shrunk(mc.shape, spot3(i, k, l).with(1, 0)) == spot3(i, 0, l));
    }
}

/// A line read as a column, and as itself.
pub proof fn lemma_line_place(b: usize, t: usize, i: int, k: int)
    requires
        0 <= i < b,
        0 <= k < t,
    ensures
        place(Shape::D3(b, 1, t), number(Shape::D3(b, t, 1), spot3(i, k, 0))) == spot3(i, 0, k),
        place(Shape::D3(b, 1, t), number(Shape::D3(b, 1, t), spot3(i, 0, k))) == spot3(i, 0, k),
{
    let line = Shape::D3(b, 1, t);
    let down = Shape::D3(b, t, 1);
    let n = i * t + k;
    assert(back(line, 0) == t && back(line, 1) == 1 && back(line, 2) == b);
    assert(back(down, 0) == 1 && back(down, 1) == t && back(down, 2) == b);
    assert(0 * b == 0) by (nonlinear_arith);
    assert(number(down, spot3(i, k, 0)) == n) by (nonlinear_arith)
        requires
            number(down, spot3(i, k, 0)) == ((0 * b + i) * t + k) * 1 + 0,
            n == i * t + k,
    ;
    assert(number(line, spot3(i, 0, k)) == n) by (nonlinear_arith)
        requires
            number(line, spot3(i, 0, k)) == ((0 * b + i) * 1 + 0) * t + k,
            n == i * t + k,
    ;
    lemma_parts(n, t as int, i, k);
    lemma_parts(i, 1, i, 0);
    lemma_below(i, b as int);
}

/// A table for each row, with a dimension of length one put in.
pub proof fn lemma_square_place(b: usize, t: usize, s: usize, i: int, k: int, l: int)
    requires
        0 <= i < b,
        0 <= k < t,
        0 <= l < s,
    ensures
        place(
            Shape::D3(b, t, s),
            number(Shape::D4(b, 1, t, s), (Place { a: i, b: 0, c: k, d: l })),
        ) == spot3(i, k, l),
{
    let four = Shape::D4(b, 1, t, s);
    let three = Shape::D3(b, t, s);
    let rows = i * t + k;
    let n = rows * s + l;
    assert(back(four, 0) == s && back(four, 1) == t && back(four, 2) == 1);
    assert(back(three, 0) == s && back(three, 1) == t && back(three, 2) == b);
    assert((i * 1 + 0) * t + k == rows) by (nonlinear_arith)
        requires
            rows == i * t + k,
    ;
    assert(number(four, (Place { a: i, b: 0, c: k, d: l })) == n);
    lemma_parts(n, s as int, rows, l);
    lemma_parts(rows, t as int, i, k);
    lemma_below(i, b as int);
}

/// The channels of head `h` at step `k`.
pub open spec fn head<R>(w: World<R>, x: Expr, dim: int, i: int, h: int, k: int) -> Seq<R> {
    Seq::new(dim as nat, |d: int| v3(w, x, i, h * dim + d, k))
}

/// The same, over the square root of the number of channels.
pub open spec fn asking<R>(w: World<R>, x: Expr, dim: usize, i: int, h: int, k: int) -> Seq<R> {
    Seq::new(
        dim as nat,
        |d: int| (w.alone)(Op::InvSqrt(dim), v3(w, x, i, h * dim as int + d, k)),
    )
}

/// What holds of the parts of a layer of attention, at head `h`, channel `d` of it, and
/// steps `k` and `l`.
pub open spec fn attends<R>(
    w: World<R>,
    a: AttnParts,
    prefix: Seq<char>,
    dim: usize,
    mask: Expr,
    t: int,
    i: int,
    h: int,
    d: int,
    k: int,
    l: int,
) -> bool {
    // A query against a key, and against the embedding of a relative position.
    &&& v4(w, a.scores, i, h, k, l) == (w.dot)(
        asking(w, a.q, dim, i, h, k),
        head(w, a.k, dim as int, i, h, l),
    )
    &&& forall|r: int|
        0 <= r < 2 * t - 1 ==> #[trigger] v4(w, a.rel_logits, i, h, k, r) == (w.dot)(
            asking(w, a.q, dim, i, h, k),
            Seq::new(dim as nat, |e: int| relative(w, prefix + ".emb_rel_k"@, r - (t - 1), e)),
        )
    &&& v4(w, a.sum, i, h, k, l) == plus(
        w,
        v4(w, a.scores, i, h, k, l),
        v4(w, a.rel_logits, i, h, k, t - 1 + (l - k)),
    )
    // The weights of the steps.
    &&& v4(w, a.attn, i, h, k, l) == (w.soft)(
        Seq::new(
            t as nat,
            |m: int|
                plus(
                    w,
                    v4(w, a.sum, i, h, k, m),
                    (w.alone)(Op::MaskBias, both(w, mask, i, k, m)),
                ),
        ),
        l,
    )
    // What the weights take of the values, and of the relative positions.
    &&& v4(w, a.by_value, i, h, k, d) == (w.dot)(
        Seq::new(t as nat, |m: int| v4(w, a.attn, i, h, k, m)),
        Seq::new(t as nat, |m: int| v3(w, a.v, i, h * dim as int + d, m)),
    )
    &&& v4(w, a.by_position, i, h, k, d) == (w.dot)(
        Seq::new(
            (2 * t - 1) as nat,
            |r: int|
                if 0 <= k + r - (t - 1) < t {
                    v4(w, a.attn, i, h, k, k + r - (t - 1))
                } else {
                    (w.whole)(0)
                },
        ),
        Seq::new(
            (2 * t - 1) as nat,
            |r: int| relative(w, prefix + ".emb_rel_v"@, r - (t - 1), d),
        ),
    )
    &&& v4(w, a.mixed, i, h, k, d) == plus(
        w,
        v4(w, a.by_value, i, h, k, d),
        v4(w, a.by_position, i, h, k, d),
    )
}

/// Whether a layer of attention and its inputs have their sizes.
pub open spec fn attn_shaped<R>(
    w: World<R>,
    p: AttnSpec,
    x: Expr,
    mask: Expr,
    b: usize,
    t: usize,
) -> bool {
    &&& p.wf()
    &&& attention_fits(t as int)
    &&& shape_of(w, x) == Shape::D3(b, p.hidden, t)
    &&& shape_of(w, mask) == Shape::D3(b, 1, t)
}

/// The queries, the keys and the values come from the same steps.
proof fn lemma_attn_inputs<R>(
    w: World<R>,
    p: AttnSpec,
    prefix: Seq<char>,
    x: Expr,
    mask: Expr,
    b: usize,
    t: usize,
)
    requires
        attn_shaped(w, p, x, mask, b, t),
    ensures
        ({
            let a = attn_parts(p, prefix, x, attn_mask(mask, b, t), b, t);
            &&& shape_of(w, a.q) == Shape::D3(b, p.hidden, t)
            &&& shape_of(w, a.k) == Shape::D3(b, p.hidden, t)
            &&& shape_of(w, a.v) == Shape::D3(b, p.hidden, t)
            &&& p.hidden > 0
        }),
{
    assert(p.hidden > 0) by (nonlinear_arith)
        requires
            p.hidden == p.heads * p.head_dim,
            p.heads > 0,
            p.head_dim > 0,
    ;
    law_pointwise(w, prefix + ".conv_q"@, x, b, p.hidden, p.hidden, t, 0, 0, 0);
    law_pointwise(w, prefix + ".conv_k"@, x, b, p.hidden, p.hidden, t, 0, 0, 0);
    law_pointwise(w, prefix + ".conv_v"@, x, b, p.hidden, p.hidden, t, 0, 0, 0);
}

/// The scores of a layer of attention.
#[verifier::rlimit(40)]
proof fn lemma_scores<R>(
    w: World<R>,
    p: AttnSpec,
    prefix: Seq<char>,
    x: Expr,
    mask: Expr,
    b: usize,
    t: usize,
    i: int,
    h: int,
    k: int,
    l: int,
)
    requires
        attn_shaped(w, p, x, mask, b, t),
        0 <= i < b,
        0 <= h < p.heads,
        0 <= k < t,
        0 <= l < t,
    ensures
        ({
            let a = attn_parts(p, prefix, x, attn_mask(mask, b, t), b, t);
            &&& shape_of(w, a.scores) == Shape::D4(b, p.heads, t, t)
            &&& v4(w, a.scores, i, h, k, l) == (w.dot)(
                asking(w, a.q, p.head_dim, i, h, k),
                head(w, a.k, p.head_dim as int, i, h, l),
            )
        }),
{
    let a = attn_parts(p, prefix, x, attn_mask(mask, b, t), b, t);
    lemma_attn_inputs(w, p, prefix, x, mask, b, t);
    let dim = p.head_dim as int;
    let sq = split_heads(p, a.q, b, t);
    let sk = split_heads(p, a.k, b, t);
    let asked = ap1(Op::InvSqrt(p.head_dim), sq);
    let turned = ap1(Op::SwapLast, sk);
    lemma_split_heads(w, p, a.q, b, t, i, h, k, 0);
    lemma_split_heads(w, p, a.k, b, t, i, h, l, 0);
    lemma_meaning1(w, Op::InvSqrt(p.head_dim), sq);
    lemma_meaning1(w, Op::SwapLast, sk);
    lemma_meaning2(w, Op::MatMul, asked, turned);
    let ma = meaning(w, asked);
    let mt = meaning(w, turned);
    let at = Place { a: i, b: h, c: k, d: l };
    let e = row(ma, at);
    let f = Seq::new(dim as nat, |q: int| (mt.at)(shrunk(mt.shape, at.with(1, q))));
    let ask = asking(w, a.q, p.head_dim, i, h, k);
    let key = head(w, a.k, dim, i, h, l);
    assert forall|d: int| 0 <= d < dim implies #[trigger] e[d] == ask[d] by {
        lemma_split_heads(w, p, a.q, b, t, i, h, k, d);
    }
    assert forall|d: int| 0 <= d < dim implies #[trigger] f[d] == key[d] by {
        lemma_split_heads(w, p, a.k, b, t, i, h, l, d);
        assert(shrunk(mt.shape, at.with(1, d)) == (Place { a: i, b: h, c: d, d: l }));
    }
    assert(e =~= ask);
    assert(f =~= key);
}

/// The scores by relative position.
#[verifier::rlimit(40)]
proof fn lemma_rel_logits<R>(
    w: World<R>,
    p: AttnSpec,
    prefix: Seq<char>,
    x: Expr,
    mask: Expr,
    b: usize,
    t: usize,
    i: int,
    h: int,
    k: int,
    r: int,
)
    requires
        attn_shaped(w, p, x, mask, b, t),
        0 <= i < b,
        0 <= h < p.heads,
        0 <= k < t,
        0 <= r < 2 * t - 1,
    ensures
        ({
            let a = attn_parts(p, prefix, x, attn_mask(mask, b, t), b, t);
            &&& shape_of(w, a.rel_logits) == Shape::D4(b, p.heads, t, (2 * t - 1) as usize)
            &&& v4(w, a.rel_logits, i, h, k, r) == (w.dot)(
                asking(w, a.q, p.head_dim, i, h, k),
                Seq::new(
                    p.head_dim as nat,
                    |e: int| relative(w, prefix + ".emb_rel_k"@, r - (t - 1), e),
                ),
            )
        }),
{
    lemma_room(t as int);
    let a = attn_parts(p, prefix, x, attn_mask(mask, b, t), b, t);
    lemma_attn_inputs(w, p, prefix, x, mask, b, t);
    let dim = p.head_dim as int;
    let name = prefix + ".emb_rel_k"@;
    let emb = rel_embeddings(Expr::Weight(name, Shape::D3(1, 9, p.head_dim)), t);
    let sq = split_heads(p, a.q, b, t);
    let asked = ap1(Op::InvSqrt(p.head_dim), sq);
    let turned = ap1(Op::SwapLast, emb);
    lemma_split_heads(w, p, a.q, b, t, i, h, k, 0);
    law_relative_embeddings(w, name, p.head_dim, t, r, 0);
    lemma_meaning1(w, Op::InvSqrt(p.head_dim), sq);
    lemma_meaning1(w, Op::SwapLast, emb);
    lemma_meaning2(w, Op::MatMul, asked, turned);
    let ma = meaning(w, asked);
    let mt = meaning(w, turned);
    let at = Place { a: i, b: h, c: k, d: r };
    let e = row(ma, at);
    let f = Seq::new(dim as nat, |q: int| (mt.at)(shrunk(mt.shape, at.with(1, q))));
    let ask = asking(w, a.q, p.head_dim, i, h, k);
    let rel = Seq::new(p.head_dim as nat, |e: int| relative(w, name, r - (t - 1), e));
    assert forall|d: int| 0 <= d < dim implies #[trigger] e[d] == ask[d] by {
        lemma_split_heads(w, p, a.q, b, t, i, h, k, d);
    }
    assert forall|d: int| 0 <= d < dim implies #[trigger] f[d] == rel[d] by {
        law_relative_embeddings(w, name, p.head_dim, t, r, d);
        assert(shrunk(mt.shape, at.with(1, d)) == spot3(0, d, r));
    }
    assert(e =~= ask);
    assert(f =~= rel);
}

/// The weights that a layer of attention gives to the steps.
#[verifier::rlimit(40)]
proof fn lemma_weights<R>(
    w: World<R>,
    p: AttnSpec,
    prefix: Seq<char>,
    x: Expr,
    mask: Expr,
    b: usize,
    t: usize,
    i: int,
    h: int,
    k: int,
    l: int,
)
    requires
        attn_shaped(w, p, x, mask, b, t),
        0 <= i < b,
        0 <= h < p.heads,
        0 <= k < t,
        0 <= l < t,
    ensures
        ({
            let a = attn_parts(p, prefix, x, attn_mask(mask, b, t), b, t);
            &&& shape_of(w, a.sum) == Shape::D4(b, p.heads, t, t)
            &&& shape_of(w, a.attn) == Shape::D4(b, p.heads, t, t)
            &&& v4(w, a.sum, i, h, k, l) == plus(
                w,
                v4(w, a.scores, i, h, k, l),
                v4(w, a.rel_logits, i, h, k, t - 1 + (l - k)),
            )
            &&& v4(w, a.attn, i, h, k, l) == (w.soft)(
                Seq::new(
                    t as nat,
                    |m: int|
                        plus(
                            w,
                            v4(w, a.sum, i, h, k, m),
                            (w.alone)(Op::MaskBias, both(w, mask, i, k, m)),
                        ),
                ),
                l,
            )
        }),
{
    lemma_room(t as int);
    assert(t * t <= usize::MAX) by (nonlinear_arith)
        requires
            2 * t * t + t <= usize::MAX,
    ;
    let pairs = attn_mask(mask, b, t);
    let a = attn_parts(p, prefix, x, pairs, b, t);
    lemma_scores(w, p, prefix, x, mask, b, t, i, h, k, l);
    lemma_rel_logits(w, p, prefix, x, mask, b, t, i, h, k, t - 1 + (l - k));
    let shifted = to_absolute(a.rel_logits, b, p.heads, t);
    law_to_absolute(w, a.rel_logits, b, p.heads, t, i, h, k, l);
    lemma_meaning2(w, Op::Add, a.scores, shifted);
    let wide = Op::Expand(Shape::D4(b, p.heads, t, t));
    let spread = ap1(wide, pairs);
    let bias = ap1(Op::MaskBias, spread);
    let both_sum = ap2(Op::Add, a.sum, bias);
    lemma_meaning1(w, wide, pairs);
    lemma_meaning1(w, Op::MaskBias, spread);
    lemma_meaning2(w, Op::Add, a.sum, bias);
    lemma_meaning1(w, Op::Softmax, both_sum);
    let at = Place { a: i, b: h, c: k, d: l };
    let e = row(meaning(w, both_sum), at);
    let f = Seq::new(
        t as nat,
        |m: int|
            plus(
                w,
                v4(w, a.sum, i, h, k, m),
                (w.alone)(Op::MaskBias, both(w, mask, i, k, m)),
            ),
    );
    assert(shape_of(w, a.sum) == Shape::D4(b, p.heads, t, t));
    lemma_attn_mask(w, mask, b, t, i, k, l);
    assert forall|m: int| 0 <= m < t implies #[trigger] e[m] == f[m] by {
        lemma_attn_mask(w, mask, b, t, i, k, m);
        let here = Place { a: i, b: h, c: k, d: m };
        assert(shrunk(meaning(w, a.sum).shape, here) == here);
        assert(shrunk(meaning(w, bias).shape, here) == here);
        assert(shrunk(meaning(w, pairs).shape, here) == (Place { a: i, b: 0, c: k, d: m }));
    }
    assert(e =~= f);
    assert(shrunk(meaning(w, a.scores).shape, at) == at);
    assert(shrunk(meaning(w, shifted).shape, at) == at);
}

/// What the weights take.
#[verifier::rlimit(40)]
proof fn lemma_taken<R>(
    w: World<R>,
    p: AttnSpec,
    prefix: Seq<char>,
    x: Expr,
    mask: Expr,
    b: usize,
    t: usize,
    i: int,
    h: int,
    d: int,
    k: int,
)
    requires
        attn_shaped(w, p, x, mask, b, t),
        0 <= i < b,
        0 <= h < p.heads,
        0 <= d < p.head_dim,
        0 <= k < t,
    ensures
        ({
            let a = attn_parts(p, prefix, x, attn_mask(mask, b, t), b, t);
            &&& shape_of(w, a.mixed) == Shape::D4(b, p.heads, t, p.head_dim)
            &&& v4(w, a.by_value, i, h, k, d) == (w.dot)(
                Seq::new(t as nat, |m: int| v4(w, a.attn, i, h, k, m)),
                Seq::new(t as nat, |m: int| v3(w, a.v, i, h * p.head_dim as int + d, m)),
            )
            &&& v4(w, a.by_position, i, h, k, d) == (w.dot)(
                Seq::new(
                    (2 * t - 1) as nat,
                    |r: int|
                        if 0 <= k + r - (t - 1) < t {
                            v4(w, a.attn, i, h, k, k + r - (t - 1))
                        } else {
                            (w.whole)(0)
                        },
                ),
                Seq::new(
                    (2 * t - 1) as nat,
                    |r: int| relative(w, prefix + ".emb_rel_v"@, r - (t - 1), d),
                ),
            )
            &&& v4(w, a.mixed, i, h, k, d) == plus(
                w,
                v4(w, a.by_value, i, h, k, d),
                v4(w, a.by_position, i, h, k, d),
            )
        }),
{
    lemma_room(t as int);
    let a = attn_parts(p, prefix, x, attn_mask(mask, b, t), b, t);
    lemma_attn_inputs(w, p, prefix, x, mask, b, t);
    lemma_weights(w, p, prefix, x, mask, b, t, i, h, k, 0);
    let name = prefix + ".emb_rel_v"@;
    let sv = split_heads(p, a.v, b, t);
    let rel = to_relative(a.attn, b, p.heads, t);
    let emb = rel_embeddings(Expr::Weight(name, Shape::D3(1, 9, p.head_dim)), t);
    lemma_split_heads(w, p, a.v, b, t, i, h, 0, d);
    law_to_relative(w, a.attn, b, p.heads, t, i, h, k, 0);
    law_relative_embeddings(w, name, p.head_dim, t, 0, d);
    lemma_meaning2(w, Op::MatMul, a.attn, sv);
    lemma_meaning2(w, Op::MatMul, rel, emb);
    lemma_meaning2(w, Op::Add, a.by_value, a.by_position);
    let at = Place { a: i, b: h, c: k, d };
    let mv = meaning(w, sv);
    let me = meaning(w, emb);
    let e = Seq::new(t as nat, |q: int| (mv.at)(shrunk(mv.shape, at.with(1, q))));
    let f = Seq::new(t as nat, |m: int| v3(w, a.v, i, h * p.head_dim as int + d, m));
    assert forall|m: int| 0 <= m < t implies #[trigger] e[m] == f[m] by {
        lemma_split_heads(w, p, a.v, b, t, i, h, m, d);
        assert(shrunk(mv.shape, at.with(1, m)) == (Place { a: i, b: h, c: m, d }));
    }
    assert(e =~= f);
    assert(row(meaning(w, a.attn), at) =~= Seq::new(
        t as nat,
        |m: int| v4(w, a.attn, i, h, k, m),
    ));
    let n = (2 * t - 1) as nat;
    let g = row(meaning(w, rel), at);
    let weights = Seq::new(
        n,
        |r: int|
            if 0 <= k + r - (t - 1) < t {
                v4(w, a.attn, i, h, k, k + r - (t - 1))
            } else {
                (w.whole)(0)
            },
    );
    assert forall|r: int| 0 <= r < n implies #[trigger] g[r] == weights[r] by {
        law_to_relative(w, a.attn, b, p.heads, t, i, h, k, r);
    }
    assert(g =~= weights);
    let u = Seq::new(n, |q: int| (me.at)(shrunk(me.shape, at.with(1, q))));
    let known = Seq::new(n, |r: int| relative(w, name, r - (t - 1), d));
    assert forall|r: int| 0 <= r < n implies #[trigger] u[r] == known[r] by {
        law_relative_embeddings(w, name, p.head_dim, t, r, d);
        assert(shrunk(me.shape, at.with(1, r)) == spot3(0, r, d));
    }
    assert(u =~= known);
    assert(shape_of(w, a.by_value) == Shape::D4(b, p.heads, t, p.head_dim));
    assert(shape_of(w, a.by_position) == Shape::D4(b, p.heads, t, p.head_dim));
    assert(shrunk(Shape::D4(b, p.heads, t, p.head_dim), at) == at);
}

/// A layer of attention weighs the steps by how well their keys, and the relative
/// positions, answer the queries, and takes the values by these weights.
pub proof fn law_attention<R>(
    w: World<R>,
    p: AttnSpec,
    prefix: Seq<char>,
    x: Expr,
    mask: Expr,
    b: usize,
    t: usize,
    i: int,
    h: int,
    d: int,
    k: int,
    l: int,
)
    requires
        attn_shaped(w, p, x, mask, b, t),
        0 <= i < b,
        0 <= h < p.heads,
        0 <= d < p.head_dim,
        0 <= k < t,
        0 <= l < t,
    ensures
        attends(
            w,
            attn_parts(p, prefix, x, attn_mask(mask, b, t), b, t),
            prefix,
            p.head_dim,
            mask,
            t as int,
            i,
            h,
            d,
            k,
            l,
        ),
{
    let a = attn_parts(p, prefix, x, attn_mask(mask, b, t), b, t);
    lemma_scores(w, p, prefix, x, mask, b, t, i, h, k, l);
    assert forall|r: int| 0 <= r < 2 * t - 1 implies #[trigger] v4(w, a.rel_logits, i, h, k, r)
        == (w.dot)(
        asking(w, a.q, p.head_dim, i, h, k),
        Seq::new(
            p.head_dim as nat,
            |e: int| relative(w, prefix + ".emb_rel_k"@, r - (t - 1), e),
        ),
    ) by {
        lemma_rel_logits(w, p, prefix, x, mask, b, t, i, h, k, r);
    }
    lemma_weights(w, p, prefix, x, mask, b, t, i, h, k, l);
    lemma_taken(w, p, prefix, x, mask, b, t, i, h, d, k);
}

/// The queries, keys and values of a layer of attention, and its output, come from single
/// steps.
#[verifier::rlimit(40)]
pub proof fn law_attention_ends<R>(
    w: World<R>,
    p: AttnSpec,
    prefix: Seq<char>,
    x: Expr,
    mask: Expr,
    b: usize,
    t: usize,
    i: int,
    o: int,
    k: int,
)
    requires
        attn_shaped(w, p, x, mask, b, t),
        0 <= i < b,
        0 <= o < p.hidden,
        0 <= k < t,
    ensures
        ({
            let a = attn_parts(p, prefix, x, attn_mask(mask, b, t), b, t);
            let n = p.hidden as int;
            let dim = p.head_dim as int;
            &&& shape_of(w, a.out) == Shape::D3(b, p.hidden, t)
            &&& v3(w, a.q, i, o, k) == applied_at(w, channels(w, x, n, i, k), prefix + ".conv_q"@, o)
            &&& v3(w, a.k, i, o, k) == applied_at(w, channels(w, x, n, i, k), prefix + ".conv_k"@, o)
            &&& v3(w, a.v, i, o, k) == applied_at(w, channels(w, x, n, i, k), prefix + ".conv_v"@, o)
            &&& v3(w, a.out, i, o, k) == applied_at(
                w,
                Seq::new(n as nat, |c: int| v4(w, a.mixed, i, c / dim, k, c % dim)),
                prefix + ".conv_o"@,
                o,
            )
        }),
{
    let pairs = attn_mask(mask, b, t);
    let a = attn_parts(p, prefix, x, pairs, b, t);
    let n = p.hidden;
    let dim = p.head_dim as int;
    law_pointwise(w, prefix + ".conv_q"@, x, b, n, n, t, i, o, k);
    law_pointwise(w, prefix + ".conv_k"@, x, b, n, n, t, i, o, k);
    law_pointwise(w, prefix + ".conv_v"@, x, b, n, n, t, i, o, k);
    lemma_taken(w, p, prefix, x, mask, b, t, i, 0, 0, k);
    let turned = ap1(Op::SwapLast, a.mixed);
    let three = Op::Reshape(Shape::D3(b, n, t));
    let merged = ap1(three, turned);
    lemma_meaning1(w, Op::SwapLast, a.mixed);
    lemma_meaning1(w, three, turned);
    let e = channels(w, merged, n as int, i, k);
    let f = Seq::new(n as nat, |c: int| v4(w, a.mixed, i, c / dim, k, c % dim));
    assert forall|c: int| 0 <= c < n implies #[trigger] e[c] == f[c] by {
        let h = c / dim;
        let d = c % dim;
        assert(c == h * dim + d && 0 <= d < dim && 0 <= h < p.heads) by (nonlinear_arith)
            requires
                h == c / dim,
                d == c % dim,
                dim == p.head_dim,
                dim > 0,
                0 <= c < n,
                n == p.heads * p.head_dim,
        ;
        lemma_head_place(b, p.heads, p.head_dim, n, t, i, h, d, k);
    }
    assert(e =~= f);
    law_pointwise(w, prefix + ".conv_o"@, merged, b, n, n, t, i, o, k);
}

/// A layer of a matrix and a bias, applied to a row.
pub open spec fn applied_at<R>(w: World<R>, row: Seq<R>, prefix: Seq<char>, o: int) -> R {
    plus(
        w,
        (w.dot)(row, kernel_row(w, prefix + ".weight"@, row.len() as int, o)),
        w1(w, prefix + ".bias"@, o),
    )
}

// ---------------------------------------------------------------------------
// The encoder
// ---------------------------------------------------------------------------

/// What holds of the parts of layer `at` of an encoder, at channel `c` of step `k`: each
/// half adds its result to its input, and the sum is normalized.
pub open spec fn encodes<R>(
    w: World<R>,
    e: EncoderParts,
    prefix: Seq<char>,
    at: int,
    hidden: int,
    inner: int,
    x: Expr,
    mask: Expr,
    i: int,
    c: int,
    k: int,
) -> bool {
    let valid = v3(w, mask, i, 0, k);
    &&& v3(w, e.sum_1, i, c, k) == plus(w, v3(w, x, i, c, k), v3(w, e.attn.out, i, c, k))
    &&& v3(w, e.norm_1, i, k, c) == normed(
        w,
        channels(w, e.sum_1, hidden, i, k),
        prefix + ".norm_layers_1."@ + decimal(at) + ".norm"@,
        c,
    )
    &&& forall|o: int|
        0 <= o < inner ==> #[trigger] v3(w, e.ffn.conv_1, i, o, k) == applied_at(
            w,
            Seq::new(hidden as nat, |d: int| times(w, v3(w, e.norm_1, i, k, d), valid)),
            prefix + ".ffn_layers."@ + decimal(at) + ".conv_1"@,
            o,
        )
    &&& v3(w, e.ffn.conv_2, i, c, k) == applied_at(
        w,
        Seq::new(
            inner as nat,
            |o: int| times(w, (w.alone)(Op::Relu, v3(w, e.ffn.conv_1, i, o, k)), valid),
        ),
        prefix + ".ffn_layers."@ + decimal(at) + ".conv_2"@,
        c,
    )
    &&& v3(w, e.sum_2, i, c, k) == plus(
        w,
        v3(w, e.norm_1, i, k, c),
        times(w, v3(w, e.ffn.conv_2, i, c, k), valid),
    )
    &&& v3(w, e.norm_2, i, k, c) == normed(
        w,
        channels(w, e.sum_2, hidden, i, k),
        prefix + ".norm_layers_2."@ + decimal(at) + ".norm"@,
        c,
    )
    &&& v3(w, e.out, i, c, k) == v3(w, e.norm_2, i, k, c)
}

/// A layer of an encoder: attention and a feed-forward layer, each with its input added
/// and then normalized.
#[verifier::rlimit(60)]
pub proof fn law_encoder_layer<R>(
    w: World<R>,
    p: AttnSpec,
    prefix: Seq<char>,
    x: Expr,
    mask: Expr,
    b: usize,
    t: usize,
    at: int,
    i: int,
    c: int,
    k: int,
)
    requires
        attn_shaped(w, p, x, mask, b, t),
        0 <= i < b,
        0 <= c < p.hidden,
        0 <= k < t,
    ensures
        ({
            let e = encoder_parts(p, prefix, x, mask, b, t, at);
            &&& e.attn == attn_parts(
                p,
                prefix + ".attn_layers."@ + decimal(at),
                x,
                attn_mask(mask, b, t),
                b,
                t,
            )
            &&& shape_of(w, e.out) == Shape::D3(b, p.hidden, t)
            &&& encodes(w, e, prefix, at, p.hidden as int, p.inner as int, x, mask, i, c, k)
        }),
{
    let e = encoder_parts(p, prefix, x, mask, b, t, at);
    let n = p.hidden;
    let hidden = n as int;
    let inner = p.inner as int;
    let valid = v3(w, mask, i, 0, k);
    law_attention_ends(
        w,
        p,
        prefix + ".attn_layers."@ + decimal(at),
        x,
        mask,
        b,
        t,
        i,
        c,
        k,
    );
    lemma_meaning2(w, Op::Add, x, e.attn.out);
    assert(shape_of(w, e.sum_1) == Shape::D3(b, n, t));
    let first = prefix + ".norm_layers_1."@ + decimal(at) + ".norm"@;
    law_channel_norm(w, first, e.sum_1, b, n, t, i, k, c);
    let mid = ap1(Op::SwapLast, e.norm_1);
    lemma_meaning1(w, Op::SwapLast, e.norm_1);
    let at_ffn = prefix + ".ffn_layers."@ + decimal(at);
    let into = ap2(Op::Mul, mid, mask);
    lemma_meaning2(w, Op::Mul, mid, mask);
    let row_1 = Seq::new(hidden as nat, |d: int| times(w, v3(w, e.norm_1, i, k, d), valid));
    assert(channels(w, into, hidden, i, k) =~= row_1) by {
        assert forall|d: int| 0 <= d < hidden implies #[trigger] channels(w, into, hidden, i, k)[d]
            == row_1[d] by {
            assert(shrunk(meaning(w, mid).shape, spot3(i, d, k)) == spot3(i, d, k));
            assert(shrunk(meaning(w, mask).shape, spot3(i, d, k)) == spot3(i, 0, k));
        }
    }
    assert forall|o: int| 0 <= o < inner implies #[trigger] v3(w, e.ffn.conv_1, i, o, k)
        == applied_at(w, row_1, at_ffn + ".conv_1"@, o) by {
        law_pointwise(w, at_ffn + ".conv_1"@, into, b, p.inner, n, t, i, o, k);
    }
    law_pointwise(w, at_ffn + ".conv_1"@, into, b, p.inner, n, t, i, 0, k);
    let act = ap1(Op::Relu, e.ffn.conv_1);
    let between = ap2(Op::Mul, act, mask);
    lemma_meaning1(w, Op::Relu, e.ffn.conv_1);
    lemma_meaning2(w, Op::Mul, act, mask);
    let row_2 = Seq::new(
        inner as nat,
        |o: int| times(w, (w.alone)(Op::Relu, v3(w, e.ffn.conv_1, i, o, k)), valid),
    );
    assert(channels(w, between, inner, i, k) =~= row_2) by {
        assert forall|d: int| 0 <= d < inner implies #[trigger] channels(
            w,
            between,
            inner,
            i,
            k,
        )[d] == row_2[d] by {
            assert(shrunk(meaning(w, act).shape, spot3(i, d, k)) == spot3(i, d, k));
            assert(shrunk(meaning(w, mask).shape, spot3(i, d, k)) == spot3(i, 0, k));
        }
    }
    law_pointwise(w, at_ffn + ".conv_2"@, between, b, n, p.inner, t, i, c, k);
    lemma_meaning2(w, Op::Mul, e.ffn.conv_2, mask);
    lemma_meaning2(w, Op::Add, mid, e.ffn.out);
    assert(shape_of(w, e.sum_2) == Shape::D3(b, n, t));
    let second = prefix + ".norm_layers_2."@ + decimal(at) + ".norm"@;
    law_channel_norm(w, second, e.sum_2, b, n, t, i, k, c);
    lemma_meaning1(w, Op::SwapLast, e.norm_2);
    assert(shrunk(Shape::D3(b, n, t), spot3(i, c, k)) == spot3(i, c, k));
    assert(shrunk(meaning(w, mask).shape, spot3(i, c, k)) == spot3(i, 0, k));
}

/// The layers of an encoder follow one another: each acts on what those before it leave,
/// and the first on the input.
pub proof fn law_encoder<R>(
    w: World<R>,
    p: AttnSpec,
    prefix: Seq<char>,
    x: Expr,
    mask: Expr,
    b: usize,
    t: usize,
    n: int,
)
    requires
        attn_shaped(w, p, x, mask, b, t),
        b > 0,
        0 <= n,
    ensures
        encoder_value(p, prefix, x, mask, b, t, 0) == x,
        attn_shaped(w, p, encoder_value(p, prefix, x, mask, b, t, n), mask, b, t),
        n > 0 ==> encoder_value(p, prefix, x, mask, b, t, n) == encoder_parts(
            p,
            prefix,
            encoder_value(p, prefix, x, mask, b, t, n - 1),
            mask,
            b,
            t,
            n - 1,
        ).out,
    decreases n,
{
    if n > 0 {
        law_encoder(w, p, prefix, x, mask, b, t, n - 1);
        let before = encoder_value(p, prefix, x, mask, b, t, n - 1);
        assert(p.hidden > 0) by (nonlinear_arith)
            requires
                p.hidden == p.heads * p.head_dim,
                p.heads > 0,
                p.head_dim > 0,
        ;
        law_encoder_layer(w, p, prefix, before, mask, b, t, n - 1, 0, 0, 0);
    }
}

} // verus!
