//! What holds of the vocoder: samples depend on no later frame.

use vstd::arithmetic::div_mod::lemma_fundamental_div_mod_converse;
use vstd::prelude::*;

use crate::model::candle::graph::{ap1, ap2, ap3, ap5, Expr, Op, Shape};
use crate::model::candle::layers::{
    channel_norm, named, pointwise, reach, stack_value, weight, ConvNextSpec,
};
use crate::model::candle::meaning::{
    applied, back, convolved, lemma_meaning1, lemma_meaning2, lemma_meaning3, lemma_meaning5,
    meaning, nearest, number, place, row, shrunk, spot2, spot3, Place, Tensor, World,
};
use crate::model::candle::vocoder::{
    convnext, unfolded, vocoder_parts, CHUNK_COMPRESS_FACTOR, CONVNEXT_ROOT, DILATIONS, HEAD_DIM,
    HIDDEN_DIM, INPUT_DIM, LATENT_DIM, SAMPLES_PER_FRAME,
};
use crate::strings::decimal;

verus! {

/// An element of a tensor of three dimensions.
pub open spec fn element<R>(x: Tensor<R>, i: int, j: int, k: int) -> R {
    (x.at)(spot3(i, j, k))
}

/// Whether two tensors of `b` rows and `c` channels, of `m` steps and of `n`, have the
/// same elements in the first `len` steps.
pub open spec fn agree<R>(
    x: Tensor<R>,
    y: Tensor<R>,
    b: usize,
    c: usize,
    m: usize,
    n: usize,
    len: int,
) -> bool {
    &&& x.shape == Shape::D3(b, c, m)
    &&& y.shape == Shape::D3(b, c, n)
    &&& 0 < len <= m
    &&& len <= n
    &&& forall|i: int, j: int, k: int|
        0 <= i < b && 0 <= j < c && 0 <= k < len ==> #[trigger] element(x, i, j, k) == element(
            y,
            i,
            j,
            k,
        )
}

// ---------------------------------------------------------------------------
// Operations on agreeing tensors
// ---------------------------------------------------------------------------

/// Padding on the left.
proof fn lemma_pad<R>(
    w: World<R>,
    x: Tensor<R>,
    y: Tensor<R>,
    b: usize,
    c: usize,
    m: usize,
    n: usize,
    len: int,
    left: usize,
)
    requires
        agree(x, y, b, c, m, n, len),
        left + m <= usize::MAX,
        left + n <= usize::MAX,
    ensures
        ({
            let pad = Op::PadEdge { left, right: 0 };
            agree(
                applied(w, pad, seq![x]),
                applied(w, pad, seq![y]),
                b,
                c,
                (left + m) as usize,
                (left + n) as usize,
                left + len,
            )
        }),
{
    let pad = Op::PadEdge { left, right: 0 };
    let px = applied(w, pad, seq![x]);
    let py = applied(w, pad, seq![y]);
    assert forall|i: int, j: int, k: int|
        0 <= i < b && 0 <= j < c && 0 <= k < left + len implies #[trigger] element(px, i, j, k)
        == element(py, i, j, k) by {
        let at = nearest(k - left, len);
        assert(nearest(k - left, m as int) == at);
        assert(nearest(k - left, n as int) == at);
        assert(element(px, i, j, k) == element(x, i, j, at));
        assert(element(py, i, j, k) == element(y, i, j, at));
    }
}

/// The channel and the step that a tap reads.
proof fn lemma_tap(o: int, q: int, out: int, per: int, len: int, groups: int, dilation: int)
    requires
        0 <= o < out,
        0 < len,
        0 < per,
        0 < groups,
        0 < dilation,
        out % groups == 0,
        0 <= q < per * len,
    ensures
        ({
            let group = o / (out / groups);
            &&& 0 <= group * per + q / len < per * groups
            &&& 0 <= dilation * (q % len) <= dilation * (len - 1)
        }),
{
    let each = out / groups;
    assert(out == each * groups) by (nonlinear_arith)
        requires
            each == out / groups,
            out % groups == 0,
            groups > 0,
    ;
    assert(each > 0) by (nonlinear_arith)
        requires
            out == each * groups,
            out > 0,
            groups > 0,
    ;
    let group = o / each;
    assert(0 <= group < groups) by (nonlinear_arith)
        requires
            group == o / each,
            each > 0,
            0 <= o < each * groups,
    ;
    let channel = q / len;
    assert(0 <= channel < per) by (nonlinear_arith)
        requires
            channel == q / len,
            len > 0,
            0 <= q < per * len,
    ;
    assert(0 <= group * per + channel < per * groups) by (nonlinear_arith)
        requires
            0 <= group < groups,
            0 <= channel < per,
    ;
    let tap = q % len;
    assert(0 <= tap < len) by (nonlinear_arith)
        requires
            tap == q % len,
            len > 0,
    ;
    assert(0 <= dilation * tap <= dilation * (len - 1)) by (nonlinear_arith)
        requires
            0 <= tap < len,
            dilation > 0,
    ;
}

/// An element of a convolution reads only as far ahead as the kernel reaches.
proof fn lemma_convolved<R>(
    w: World<R>,
    x: Tensor<R>,
    y: Tensor<R>,
    kernel: Tensor<R>,
    b: usize,
    out: usize,
    per: usize,
    size: usize,
    dilation: usize,
    groups: usize,
    c: usize,
    m: usize,
    n: usize,
    len: int,
    i: int,
    o: int,
    k: int,
)
    requires
        agree(x, y, b, c, m, n, len),
        kernel.shape == Shape::D3(out, per, size),
        per > 0,
        size > 0,
        dilation > 0,
        groups > 0,
        c == per * groups,
        out % groups == 0,
        0 <= i < b,
        0 <= o < out,
        0 <= k,
        k + reach(size as int, dilation as int) < len,
    ensures
        convolved(w, dilation as int, groups as int, x, kernel, spot3(i, o, k)) == convolved(
            w,
            dilation as int,
            groups as int,
            y,
            kernel,
            spot3(i, o, k),
        ),
{
    let group = o / (out as int / groups as int);
    let d = dilation as int;
    let l = size as int;
    let p = per as int;
    let count = (p * l) as nat;
    let a = Seq::new(
        count,
        |q: int| (x.at)(spot3(i, group * p + q / l, k + d * (q % l))),
    );
    let e = Seq::new(
        count,
        |q: int| (y.at)(spot3(i, group * p + q / l, k + d * (q % l))),
    );
    assert(p * l >= 0) by (nonlinear_arith)
        requires
            p > 0,
            l > 0,
    ;
    assert forall|q: int| 0 <= q < count implies a[q] == e[q] by {
        lemma_tap(o, q, out as int, p, l, groups as int, d);
        assert(element(x, i, group * p + q / l, k + d * (q % l)) == element(
            y,
            i,
            group * p + q / l,
            k + d * (q % l),
        ));
    }
    assert(a =~= e);
    let f = Seq::new(count, |q: int| (kernel.at)(spot3(o, q / l, q % l)));
    assert(convolved(w, d, groups as int, x, kernel, spot3(i, o, k)) == (w.dot)(a, f));
    assert(convolved(w, d, groups as int, y, kernel, spot3(i, o, k)) == (w.dot)(e, f));
}

// ---------------------------------------------------------------------------
// Expressions with agreeing values
// ---------------------------------------------------------------------------

/// Whether the values of two expressions agree in the first `len` steps.
pub open spec fn same<R>(
    w: World<R>,
    x: Expr,
    y: Expr,
    b: usize,
    c: usize,
    m: usize,
    n: usize,
    len: int,
) -> bool {
    agree(meaning(w, x), meaning(w, y), b, c, m, n, len)
}

/// A convolution with a bias whose padding is all on the left.
proof fn lemma_causal<R>(
    w: World<R>,
    x: Expr,
    y: Expr,
    kernel: Expr,
    bias: Expr,
    b: usize,
    out: usize,
    per: usize,
    size: usize,
    dilation: usize,
    groups: usize,
    left: usize,
    c: usize,
    m: usize,
    n: usize,
    len: int,
)
    requires
        same(w, x, y, b, c, m, n, len),
        meaning(w, kernel).shape == Shape::D3(out, per, size),
        per > 0,
        size > 0,
        dilation > 0,
        groups > 0,
        c == per * groups,
        out % groups == 0,
        left == reach(size as int, dilation as int),
        left + m <= usize::MAX,
        left + n <= usize::MAX,
    ensures
        ({
            let conv = Op::Conv { dilation, groups };
            let pad = Op::PadEdge { left, right: 0 };
            same(
                w,
                ap3(conv, ap1(pad, x), kernel, bias),
                ap3(conv, ap1(pad, y), kernel, bias),
                b,
                out,
                m,
                n,
                len,
            )
        }),
{
    let conv = Op::Conv { dilation, groups };
    let pad = Op::PadEdge { left, right: 0 };
    lemma_meaning1(w, pad, x);
    lemma_meaning1(w, pad, y);
    lemma_meaning3(w, conv, ap1(pad, x), kernel, bias);
    lemma_meaning3(w, conv, ap1(pad, y), kernel, bias);
    lemma_pad(w, meaning(w, x), meaning(w, y), b, c, m, n, len, left);
    let px = meaning(w, ap1(pad, x));
    let py = meaning(w, ap1(pad, y));
    let k = meaning(w, kernel);
    let z = meaning(w, bias);
    let rx = meaning(w, ap3(conv, ap1(pad, x), kernel, bias));
    let ry = meaning(w, ap3(conv, ap1(pad, y), kernel, bias));
    assert(rx == applied(w, conv, seq![px, k, z]));
    assert(ry == applied(w, conv, seq![py, k, z]));
    assert forall|i: int, o: int, s: int|
        0 <= i < b && 0 <= o < out && 0 <= s < len implies #[trigger] element(rx, i, o, s)
        == element(ry, i, o, s) by {
        lemma_convolved(
            w,
            px,
            py,
            k,
            b,
            out,
            per,
            size,
            dilation,
            groups,
            c,
            (left + m) as usize,
            (left + n) as usize,
            left + len,
            i,
            o,
            s,
        );
    }
}

/// A convolution of kernel length one, with a bias.
proof fn lemma_pointwise<R>(
    w: World<R>,
    prefix: Seq<char>,
    x: Expr,
    y: Expr,
    b: usize,
    out: usize,
    c: usize,
    m: usize,
    n: usize,
    len: int,
)
    requires
        same(w, x, y, b, c, m, n, len),
        c > 0,
    ensures
        same(
            w,
            pointwise(prefix, out, c, x),
            pointwise(prefix, out, c, y),
            b,
            out,
            m,
            n,
            len,
        ),
{
    let one = Op::Conv { dilation: 1, groups: 1 };
    let kernel = weight(prefix, ".weight", Shape::D3(out, c, 1));
    let bias = weight(prefix, ".bias", Shape::D1(out));
    lemma_meaning3(w, one, x, kernel, bias);
    lemma_meaning3(w, one, y, kernel, bias);
    let rx = meaning(w, pointwise(prefix, out, c, x));
    let ry = meaning(w, pointwise(prefix, out, c, y));
    let k = meaning(w, kernel);
    assert(rx == applied(w, one, seq![meaning(w, x), k, meaning(w, bias)]));
    assert(ry == applied(w, one, seq![meaning(w, y), k, meaning(w, bias)]));
    assert(c * 1 == c && out as int % 1 == 0) by (nonlinear_arith);
    assert forall|i: int, o: int, s: int|
        0 <= i < b && 0 <= o < out && 0 <= s < len implies #[trigger] element(rx, i, o, s)
        == element(ry, i, o, s) by {
        lemma_convolved(
            w,
            meaning(w, x),
            meaning(w, y),
            k,
            b,
            out,
            c,
            1,
            1,
            1,
            c,
            m,
            n,
            len,
            i,
            o,
            s,
        );
    }
}

/// A convolution of kernel length one, without a bias.
proof fn lemma_plain<R>(
    w: World<R>,
    x: Expr,
    y: Expr,
    kernel: Expr,
    b: usize,
    out: usize,
    c: usize,
    m: usize,
    n: usize,
    len: int,
)
    requires
        same(w, x, y, b, c, m, n, len),
        meaning(w, kernel).shape == Shape::D3(out, c, 1),
        c > 0,
    ensures
        ({
            let one = Op::Conv { dilation: 1, groups: 1 };
            same(w, ap2(one, x, kernel), ap2(one, y, kernel), b, out, m, n, len)
        }),
{
    let one = Op::Conv { dilation: 1, groups: 1 };
    lemma_meaning2(w, one, x, kernel);
    lemma_meaning2(w, one, y, kernel);
    let rx = meaning(w, ap2(one, x, kernel));
    let ry = meaning(w, ap2(one, y, kernel));
    let k = meaning(w, kernel);
    assert(rx == applied(w, one, seq![meaning(w, x), k]));
    assert(ry == applied(w, one, seq![meaning(w, y), k]));
    assert(c * 1 == c && out as int % 1 == 0) by (nonlinear_arith);
    assert forall|i: int, o: int, s: int|
        0 <= i < b && 0 <= o < out && 0 <= s < len implies #[trigger] element(rx, i, o, s)
        == element(ry, i, o, s) by {
        lemma_convolved(
            w,
            meaning(w, x),
            meaning(w, y),
            k,
            b,
            out,
            c,
            1,
            1,
            1,
            c,
            m,
            n,
            len,
            i,
            o,
            s,
        );
    }
}

/// A normalization over the channels, with the channels put back.
proof fn lemma_norm<R>(
    w: World<R>,
    prefix: Seq<char>,
    x: Expr,
    y: Expr,
    b: usize,
    c: usize,
    m: usize,
    n: usize,
    len: int,
)
    requires
        same(w, x, y, b, c, m, n, len),
    ensures
        same(
            w,
            ap1(Op::SwapLast, channel_norm(prefix, c, x)),
            ap1(Op::SwapLast, channel_norm(prefix, c, y)),
            b,
            c,
            m,
            n,
            len,
        ),
{
    let scale = weight(prefix, ".weight", Shape::D1(c));
    let shift = weight(prefix, ".bias", Shape::D1(c));
    let sx = ap1(Op::SwapLast, x);
    let sy = ap1(Op::SwapLast, y);
    lemma_meaning1(w, Op::SwapLast, x);
    lemma_meaning1(w, Op::SwapLast, y);
    lemma_meaning3(w, Op::LayerNorm, sx, scale, shift);
    lemma_meaning3(w, Op::LayerNorm, sy, scale, shift);
    lemma_meaning1(w, Op::SwapLast, channel_norm(prefix, c, x));
    lemma_meaning1(w, Op::SwapLast, channel_norm(prefix, c, y));
    let mx = meaning(w, x);
    let my = meaning(w, y);
    let tx = meaning(w, sx);
    let ty = meaning(w, sy);
    let nx = meaning(w, channel_norm(prefix, c, x));
    let ny = meaning(w, channel_norm(prefix, c, y));
    let rx = meaning(w, ap1(Op::SwapLast, channel_norm(prefix, c, x)));
    let ry = meaning(w, ap1(Op::SwapLast, channel_norm(prefix, c, y)));
    assert(tx == applied(w, Op::SwapLast, seq![mx]));
    assert(ty == applied(w, Op::SwapLast, seq![my]));
    assert(nx == applied(w, Op::LayerNorm, seq![tx, meaning(w, scale), meaning(w, shift)]));
    assert(ny == applied(w, Op::LayerNorm, seq![ty, meaning(w, scale), meaning(w, shift)]));
    assert(rx == applied(w, Op::SwapLast, seq![nx]));
    assert(ry == applied(w, Op::SwapLast, seq![ny]));
    assert forall|i: int, j: int, k: int|
        0 <= i < b && 0 <= j < c && 0 <= k < len implies #[trigger] element(rx, i, j, k)
        == element(ry, i, j, k) by {
        let p = spot3(i, k, j);
        assert(element(rx, i, j, k) == (nx.at)(p));
        assert(element(ry, i, j, k) == (ny.at)(p));
        let a = row(tx, p);
        let e = row(ty, p);
        assert forall|q: int| 0 <= q < c implies a[q] == e[q] by {
            assert(a[q] == element(mx, i, q, k));
            assert(e[q] == element(my, i, q, k));
        }
        assert(a =~= e);
    }
}

/// An operation on each element.
proof fn lemma_alone<R>(
    w: World<R>,
    x: Expr,
    y: Expr,
    b: usize,
    c: usize,
    m: usize,
    n: usize,
    len: int,
)
    requires
        same(w, x, y, b, c, m, n, len),
    ensures
        same(w, ap1(Op::Gelu, x), ap1(Op::Gelu, y), b, c, m, n, len),
{
    lemma_meaning1(w, Op::Gelu, x);
    lemma_meaning1(w, Op::Gelu, y);
    let rx = meaning(w, ap1(Op::Gelu, x));
    let ry = meaning(w, ap1(Op::Gelu, y));
    assert(rx == applied(w, Op::Gelu, seq![meaning(w, x)]));
    assert(ry == applied(w, Op::Gelu, seq![meaning(w, y)]));
    assert forall|i: int, j: int, k: int|
        0 <= i < b && 0 <= j < c && 0 <= k < len implies #[trigger] element(rx, i, j, k)
        == element(ry, i, j, k) by {
        assert(element(meaning(w, x), i, j, k) == element(meaning(w, y), i, j, k));
    }
}

/// An operation on each element and a single number.
proof fn lemma_single<R>(
    w: World<R>,
    op: Op,
    x: Expr,
    y: Expr,
    z: Expr,
    b: usize,
    c: usize,
    m: usize,
    n: usize,
    len: int,
)
    requires
        same(w, x, y, b, c, m, n, len),
        op == Op::PRelu || op == Op::OverScalar,
    ensures
        same(w, ap2(op, x, z), ap2(op, y, z), b, c, m, n, len),
{
    lemma_meaning2(w, op, x, z);
    lemma_meaning2(w, op, y, z);
    let rx = meaning(w, ap2(op, x, z));
    let ry = meaning(w, ap2(op, y, z));
    assert(rx == applied(w, op, seq![meaning(w, x), meaning(w, z)]));
    assert(ry == applied(w, op, seq![meaning(w, y), meaning(w, z)]));
    assert forall|i: int, j: int, k: int|
        0 <= i < b && 0 <= j < c && 0 <= k < len implies #[trigger] element(rx, i, j, k)
        == element(ry, i, j, k) by {
        assert(element(meaning(w, x), i, j, k) == element(meaning(w, y), i, j, k));
    }
}

/// A place within a tensor of three dimensions stands for itself.
proof fn lemma_shrunk(b: usize, c: usize, n: usize, i: int, j: int, k: int)
    requires
        0 <= i < b,
        0 <= j < c,
        0 <= k < n,
    ensures
        shrunk(Shape::D3(b, c, n), spot3(i, j, k)) == spot3(i, j, k),
{
}

/// An operation on each element and one number for each channel.
proof fn lemma_by_channel<R>(
    w: World<R>,
    op: Op,
    x: Expr,
    y: Expr,
    z: Expr,
    b: usize,
    c: usize,
    m: usize,
    n: usize,
    len: int,
)
    requires
        same(w, x, y, b, c, m, n, len),
        op == Op::Mul || op == Op::Add,
        meaning(w, z).shape == Shape::D3(1, c, 1),
    ensures
        same(w, ap2(op, x, z), ap2(op, y, z), b, c, m, n, len),
{
    lemma_meaning2(w, op, x, z);
    lemma_meaning2(w, op, y, z);
    let rx = meaning(w, ap2(op, x, z));
    let ry = meaning(w, ap2(op, y, z));
    assert(rx == applied(w, op, seq![meaning(w, x), meaning(w, z)]));
    assert(ry == applied(w, op, seq![meaning(w, y), meaning(w, z)]));
    assert forall|i: int, j: int, k: int|
        0 <= i < b && 0 <= j < c && 0 <= k < len implies #[trigger] element(rx, i, j, k)
        == element(ry, i, j, k) by {
        lemma_shrunk(b, c, m, i, j, k);
        lemma_shrunk(b, c, n, i, j, k);
        assert(element(meaning(w, x), i, j, k) == element(meaning(w, y), i, j, k));
    }
}

/// A sum of two.
proof fn lemma_sum<R>(
    w: World<R>,
    x: Expr,
    y: Expr,
    u: Expr,
    v: Expr,
    b: usize,
    c: usize,
    m: usize,
    n: usize,
    len: int,
)
    requires
        same(w, x, y, b, c, m, n, len),
        same(w, u, v, b, c, m, n, len),
    ensures
        same(w, ap2(Op::Add, x, u), ap2(Op::Add, y, v), b, c, m, n, len),
{
    lemma_meaning2(w, Op::Add, x, u);
    lemma_meaning2(w, Op::Add, y, v);
    let rx = meaning(w, ap2(Op::Add, x, u));
    let ry = meaning(w, ap2(Op::Add, y, v));
    assert(rx == applied(w, Op::Add, seq![meaning(w, x), meaning(w, u)]));
    assert(ry == applied(w, Op::Add, seq![meaning(w, y), meaning(w, v)]));
    assert forall|i: int, j: int, k: int|
        0 <= i < b && 0 <= j < c && 0 <= k < len implies #[trigger] element(rx, i, j, k)
        == element(ry, i, j, k) by {
        lemma_shrunk(b, c, m, i, j, k);
        lemma_shrunk(b, c, n, i, j, k);
        assert(element(meaning(w, x), i, j, k) == element(meaning(w, y), i, j, k));
        assert(element(meaning(w, u), i, j, k) == element(meaning(w, v), i, j, k));
    }
}

/// A normalization by a stored mean and variance.
proof fn lemma_batch_norm<R>(
    w: World<R>,
    x: Expr,
    y: Expr,
    mean: Expr,
    var: Expr,
    scale: Expr,
    shift: Expr,
    b: usize,
    c: usize,
    m: usize,
    n: usize,
    len: int,
)
    requires
        same(w, x, y, b, c, m, n, len),
    ensures
        same(
            w,
            ap5(Op::BatchNorm, x, mean, var, scale, shift),
            ap5(Op::BatchNorm, y, mean, var, scale, shift),
            b,
            c,
            m,
            n,
            len,
        ),
{
    lemma_meaning5(w, Op::BatchNorm, x, mean, var, scale, shift);
    lemma_meaning5(w, Op::BatchNorm, y, mean, var, scale, shift);
    let rx = meaning(w, ap5(Op::BatchNorm, x, mean, var, scale, shift));
    let ry = meaning(w, ap5(Op::BatchNorm, y, mean, var, scale, shift));
    assert forall|i: int, j: int, k: int|
        0 <= i < b && 0 <= j < c && 0 <= k < len implies #[trigger] element(rx, i, j, k)
        == element(ry, i, j, k) by {
        assert(element(meaning(w, x), i, j, k) == element(meaning(w, y), i, j, k));
    }
}

// ---------------------------------------------------------------------------
// Blocks
// ---------------------------------------------------------------------------

/// A block whose padding is all on the left.
#[verifier::rlimit(40)]
proof fn lemma_block<R>(
    w: World<R>,
    p: ConvNextSpec,
    prefix: Seq<char>,
    dilation: usize,
    x: Expr,
    y: Expr,
    b: usize,
    m: usize,
    n: usize,
    len: int,
)
    requires
        same(w, x, y, b, p.channels, m, n, len),
        p.wf(),
        p.causal,
        dilation > 0,
        reach(p.kernel as int, dilation as int) + m <= usize::MAX,
        reach(p.kernel as int, dilation as int) + n <= usize::MAX,
    ensures
        same(
            w,
            p.parts(prefix, dilation, x, None).out,
            p.parts(prefix, dilation, y, None).out,
            b,
            p.channels,
            m,
            n,
            len,
        ),
{
    let c = p.channels;
    let total = reach(p.kernel as int, dilation as int);
    assert(total >= 0) by (nonlinear_arith)
        requires
            total == dilation * (p.kernel - 1),
            dilation > 0,
            p.kernel > 0,
    ;
    let left = total as usize;
    let kernel = weight(prefix + p.dwconv@, ".weight", Shape::D3(c, 1, p.kernel));
    let bias = weight(prefix + p.dwconv@, ".bias", Shape::D1(c));
    let px = p.parts(prefix, dilation, x, None);
    let py = p.parts(prefix, dilation, y, None);
    assert(1 * c == c && c as int % c as int == 0) by (nonlinear_arith)
        requires
            c > 0,
    ;
    lemma_causal(w, x, y, kernel, bias, b, c, 1, p.kernel, dilation, c, left, c, m, n, len);
    lemma_norm(w, prefix + ".norm.norm"@, px.dwconv, py.dwconv, b, c, m, n, len);
    let sx = ap1(Op::SwapLast, px.norm);
    let sy = ap1(Op::SwapLast, py.norm);
    lemma_pointwise(w, prefix + ".pwconv1"@, sx, sy, b, p.inner, c, m, n, len);
    lemma_alone(w, px.pwconv1, py.pwconv1, b, p.inner, m, n, len);
    lemma_pointwise(
        w,
        prefix + ".pwconv2"@,
        ap1(Op::Gelu, px.pwconv1),
        ap1(Op::Gelu, py.pwconv1),
        b,
        c,
        p.inner,
        m,
        n,
        len,
    );
    let gamma = weight(prefix, ".gamma", Shape::D3(1, c, 1));
    lemma_by_channel(w, Op::Mul, px.pwconv2, py.pwconv2, gamma, b, c, m, n, len);
    lemma_sum(
        w,
        x,
        y,
        ap2(Op::Mul, px.pwconv2, gamma),
        ap2(Op::Mul, py.pwconv2, gamma),
        b,
        c,
        m,
        n,
        len,
    );
}

/// A stack of blocks whose padding is all on the left.
proof fn lemma_stack<R>(
    w: World<R>,
    p: ConvNextSpec,
    root: Seq<char>,
    dilations: Seq<usize>,
    x: Expr,
    y: Expr,
    b: usize,
    m: usize,
    n: usize,
    len: int,
    count: int,
)
    requires
        same(w, x, y, b, p.channels, m, n, len),
        p.wf(),
        p.causal,
        count <= dilations.len(),
        forall|i: int|
            0 <= i < dilations.len() ==> {
                &&& #[trigger] dilations[i] > 0
                &&& reach(p.kernel as int, dilations[i] as int) + m <= usize::MAX
                &&& reach(p.kernel as int, dilations[i] as int) + n <= usize::MAX
            },
    ensures
        same(
            w,
            stack_value(p, root, dilations, x, None, count),
            stack_value(p, root, dilations, y, None, count),
            b,
            p.channels,
            m,
            n,
            len,
        ),
    decreases count,
{
    if count > 0 {
        lemma_stack(w, p, root, dilations, x, y, b, m, n, len, count - 1);
        assert(dilations[count - 1] > 0);
        lemma_block(
            w,
            p,
            root + decimal(count - 1),
            dilations[count - 1],
            stack_value(p, root, dilations, x, None, count - 1),
            stack_value(p, root, dilations, y, None, count - 1),
            b,
            m,
            n,
            len,
        );
    }
}

// ---------------------------------------------------------------------------
// Frames
// ---------------------------------------------------------------------------

/// A number taken apart into a quotient and a remainder.
proof fn lemma_split(n: int, d: int, q: int, r: int)
    requires
        0 <= r < d,
        n == q * d + r,
    ensures
        n / d == q,
        n % d == r,
{
    lemma_fundamental_div_mod_converse(n, d, q, r);
}

/// Where the element at step `f` of channel `c` stands among the steps that are taken
/// apart: at step `f / 6`, position `f % 6`.
proof fn lemma_long_place(b: usize, t: usize, long: usize, i: int, c: int, f: int)
    requires
        long == 6 * t,
        0 <= i < b,
        0 <= c < 24,
        0 <= f < long,
    ensures
        place(
            Shape::D4(b, INPUT_DIM, t, CHUNK_COMPRESS_FACTOR),
            number(Shape::D3(b, INPUT_DIM, long), spot3(i, c, f)),
        ) == (Place { a: i, b: c, c: f / 6, d: f % 6 }),
{
    let s = Shape::D3(b, INPUT_DIM, long);
    let plane = i * 24 + c;
    let n = number(s, spot3(i, c, f));
    assert(back(s, 0) == long && back(s, 1) == 24 && back(s, 2) == b);
    assert(0 * b == 0) by (nonlinear_arith);
    assert(n == plane * long + f);
    let q = f / 6;
    let r = f % 6;
    let rows = plane * t + q;
    assert(n == rows * 6 + r) by (nonlinear_arith)
        requires
            n == plane * long + f,
            long == 6 * t,
            f == 6 * q + r,
            rows == plane * t + q,
    ;
    lemma_split(n, 6, rows, r);
    assert(0 <= q < t);
    lemma_split(rows, t as int, plane, q);
    lemma_split(plane, 24, i, c);
}

/// Where position `j` of step `m` of channel `c` stands in the latent: in channel
/// `6 * c + j`.
proof fn lemma_latent_place(b: usize, t: usize, i: int, c: int, j: int, m: int)
    requires
        0 <= i < b,
        0 <= c < 24,
        0 <= j < 6,
        0 <= m < t,
    ensures
        place(
            Shape::D3(b, LATENT_DIM, t),
            number(
                Shape::D4(b, INPUT_DIM, CHUNK_COMPRESS_FACTOR, t),
                (Place { a: i, b: c, c: j, d: m }),
            ),
        ) == spot3(i, 6 * c + j, m),
{
    let s = Shape::D4(b, INPUT_DIM, CHUNK_COMPRESS_FACTOR, t);
    let n = number(s, (Place { a: i, b: c, c: j, d: m }));
    let rows = (i * 24 + c) * 6 + j;
    assert(back(s, 0) == t && back(s, 1) == 6 && back(s, 2) == 24);
    assert(n == rows * t + m);
    lemma_split(n, t as int, rows, m);
    lemma_split(rows, 144, i, 6 * c + j);
    lemma_split(i, b as int, 0, i);
}

/// Where sample `s` of a row stands among the frames: in channel `s % 512` of frame
/// `s / 512`.
proof fn lemma_sample_place(b: usize, t: usize, frames: usize, samples: usize, i: int, s: int)
    requires
        frames == 6 * t,
        samples == 3072 * t,
        0 <= i < b,
        0 <= s < samples,
    ensures
        place(Shape::D3(b, frames, HIDDEN_DIM), number(Shape::D2(b, samples), spot2(i, s)))
            == spot3(i, s / 512, s % 512),
{
    let shape = Shape::D2(b, samples);
    let n = number(shape, spot2(i, s));
    assert(back(shape, 0) == samples && back(shape, 1) == b && back(shape, 2) == 1);
    assert(0 * b == 0) by (nonlinear_arith);
    assert(n == i * samples + s);
    let q = s / 512;
    let r = s % 512;
    let rows = i * frames + q;
    assert(n == rows * 512 + r) by (nonlinear_arith)
        requires
            n == i * samples + s,
            samples == 512 * frames,
            s == 512 * q + r,
            rows == i * frames + q,
    ;
    lemma_split(n, 512, rows, r);
    assert(0 <= q < frames);
    lemma_split(rows, frames as int, i, q);
    lemma_split(i, b as int, 0, i);
}

/// The latent with its packed frames taken apart, before it is scaled.
pub open spec fn apart(scaled: Expr, b: usize, t: usize) -> Expr {
    ap1(
        Op::Reshape(Shape::D3(b, INPUT_DIM, (t * CHUNK_COMPRESS_FACTOR) as usize)),
        ap1(
            Op::SwapLast,
            ap1(Op::Reshape(Shape::D4(b, INPUT_DIM, CHUNK_COMPRESS_FACTOR, t)), scaled),
        ),
    )
}

/// Channel `c` of frame `f` is channel `6 * c + f % 6` of packed frame `f / 6`.
pub proof fn lemma_apart<R>(w: World<R>, x: Expr, b: usize, t: usize, i: int, c: int, f: int)
    requires
        meaning(w, x).shape == Shape::D3(b, LATENT_DIM, t),
        t * 6 <= usize::MAX,
        0 <= i < b,
        0 <= c < 24,
        0 <= f < t * 6,
    ensures
        element(meaning(w, apart(x, b, t)), i, c, f) == element(
            meaning(w, x),
            i,
            6 * c + f % 6,
            f / 6,
        ),
{
    let four = Op::Reshape(Shape::D4(b, INPUT_DIM, CHUNK_COMPRESS_FACTOR, t));
    let long = (t * CHUNK_COMPRESS_FACTOR) as usize;
    let three = Op::Reshape(Shape::D3(b, INPUT_DIM, long));
    let e1 = ap1(four, x);
    let e2 = ap1(Op::SwapLast, e1);
    lemma_meaning1(w, four, x);
    lemma_meaning1(w, Op::SwapLast, e1);
    lemma_meaning1(w, three, e2);
    let m0 = meaning(w, x);
    let m1 = meaning(w, e1);
    let m2 = meaning(w, e2);
    let m3 = meaning(w, ap1(three, e2));
    assert(m1 == applied(w, four, seq![m0]));
    assert(m2 == applied(w, Op::SwapLast, seq![m1]));
    assert(m3 == applied(w, three, seq![m2]));
    lemma_long_place(b, t, long, i, c, f);
    lemma_latent_place(b, t, i, c, f % 6, f / 6);
    assert(element(m3, i, c, f) == (m2.at)((Place { a: i, b: c, c: f / 6, d: f % 6 })));
    assert((m2.at)((Place { a: i, b: c, c: f / 6, d: f % 6 })) == (m1.at)(
        (Place { a: i, b: c, c: f % 6, d: f / 6 }),
    ));
}

/// The first frames of the latent give the first frames, taken apart.
proof fn lemma_unfolded<R>(
    w: World<R>,
    x: Expr,
    y: Expr,
    b: usize,
    m: usize,
    n: usize,
    len: int,
)
    requires
        same(w, x, y, b, LATENT_DIM, m, n, len),
        m * 6 <= usize::MAX,
        n * 6 <= usize::MAX,
    ensures
        same(
            w,
            unfolded(x, b, m),
            unfolded(y, b, n),
            b,
            INPUT_DIM,
            (m * 6) as usize,
            (n * 6) as usize,
            len * 6,
        ),
{
    let scale = named("tts.ttl.normalizer.scale", Shape::D0);
    let sx = ap2(Op::OverScalar, x, scale);
    let sy = ap2(Op::OverScalar, y, scale);
    lemma_single(w, Op::OverScalar, x, y, scale, b, LATENT_DIM, m, n, len);
    let ax = apart(sx, b, m);
    let ay = apart(sy, b, n);
    let bm = (m * 6) as usize;
    let bn = (n * 6) as usize;
    assert(same(w, ax, ay, b, INPUT_DIM, bm, bn, len * 6)) by {
        let three_x = Op::Reshape(Shape::D3(b, INPUT_DIM, (m * CHUNK_COMPRESS_FACTOR) as usize));
        let three_y = Op::Reshape(Shape::D3(b, INPUT_DIM, (n * CHUNK_COMPRESS_FACTOR) as usize));
        let four_x = Op::Reshape(Shape::D4(b, INPUT_DIM, CHUNK_COMPRESS_FACTOR, m));
        let four_y = Op::Reshape(Shape::D4(b, INPUT_DIM, CHUNK_COMPRESS_FACTOR, n));
        lemma_meaning1(w, three_x, ap1(Op::SwapLast, ap1(four_x, sx)));
        lemma_meaning1(w, three_y, ap1(Op::SwapLast, ap1(four_y, sy)));
        assert forall|i: int, c: int, f: int|
            0 <= i < b && 0 <= c < 24 && 0 <= f < len * 6 implies #[trigger] element(
            meaning(w, ax),
            i,
            c,
            f,
        ) == element(meaning(w, ay), i, c, f) by {
            lemma_apart(w, sx, b, m, i, c, f);
            lemma_apart(w, sy, b, n, i, c, f);
            assert(element(meaning(w, sx), i, 6 * c + f % 6, f / 6) == element(
                meaning(w, sy),
                i,
                6 * c + f % 6,
                f / 6,
            ));
        }
    }
    let each = Shape::D3(1, INPUT_DIM, 1);
    let std = named("tts.ae.latent_std", each);
    let mean = named("tts.ae.latent_mean", each);
    lemma_by_channel(w, Op::Mul, ax, ay, std, b, INPUT_DIM, bm, bn, len * 6);
    lemma_by_channel(
        w,
        Op::Add,
        ap2(Op::Mul, ax, std),
        ap2(Op::Mul, ay, std),
        mean,
        b,
        INPUT_DIM,
        bm,
        bn,
        len * 6,
    );
}

/// Sample `s` of a row is channel `s % 512` of frame `s / 512`.
pub proof fn lemma_wav<R>(w: World<R>, x: Expr, b: usize, t: usize, i: int, s: int)
    requires
        t * 3072 <= usize::MAX,
        meaning(w, x).shape == Shape::D3(b, HIDDEN_DIM, (t * 6) as usize),
        0 <= i < b,
        0 <= s < t * 3072,
    ensures
        ({
            let flat = Op::Reshape(Shape::D2(b, (t * SAMPLES_PER_FRAME) as usize));
            (meaning(w, ap1(flat, ap1(Op::SwapLast, x))).at)(spot2(i, s)) == element(
                meaning(w, x),
                i,
                s % 512,
                s / 512,
            )
        }),
{
    let samples = (t * SAMPLES_PER_FRAME) as usize;
    let flat = Op::Reshape(Shape::D2(b, samples));
    let e1 = ap1(Op::SwapLast, x);
    lemma_meaning1(w, Op::SwapLast, x);
    lemma_meaning1(w, flat, e1);
    let m1 = meaning(w, e1);
    let m2 = meaning(w, ap1(flat, e1));
    assert(m1 == applied(w, Op::SwapLast, seq![meaning(w, x)]));
    assert(m2 == applied(w, flat, seq![m1]));
    lemma_sample_place(b, t, (t * 6) as usize, samples, i, s);
    assert((m2.at)(spot2(i, s)) == (m1.at)(spot3(i, s / 512, s % 512)));
}

// ---------------------------------------------------------------------------
// Laws
// ---------------------------------------------------------------------------

/// The vocoder is causal: where two latents of `m` and of `n` frames have the same first
/// `t` frames, the samples that they give are the same before `t * 3072`.
pub proof fn law_vocoder_is_causal<R>(
    w: World<R>,
    x: Expr,
    y: Expr,
    b: usize,
    m: usize,
    n: usize,
    t: usize,
)
    requires
        same(w, x, y, b, LATENT_DIM, m, n, t as int),
        m * SAMPLES_PER_FRAME <= usize::MAX,
        n * SAMPLES_PER_FRAME <= usize::MAX,
    ensures
        ({
            let wx = meaning(w, vocoder_parts(x, b, m).wav);
            let wy = meaning(w, vocoder_parts(y, b, n).wav);
            &&& wx.shape == Shape::D2(b, (m * SAMPLES_PER_FRAME) as usize)
            &&& wy.shape == Shape::D2(b, (n * SAMPLES_PER_FRAME) as usize)
            &&& forall|i: int, s: int|
                0 <= i < b && 0 <= s < t * SAMPLES_PER_FRAME ==> #[trigger] (wx.at)(spot2(i, s))
                    == (wy.at)(spot2(i, s))
        }),
{
    let px = vocoder_parts(x, b, m);
    let py = vocoder_parts(y, b, n);
    let fm = (m * 6) as usize;
    let gn = (n * 6) as usize;
    let len = t * 6;
    lemma_unfolded(w, x, y, b, m, n, t as int);
    let vector = Shape::D1(HIDDEN_DIM);
    lemma_causal(
        w,
        px.unfolded,
        py.unfolded,
        named("onnx::Conv_1441", Shape::D3(HIDDEN_DIM, INPUT_DIM, 7)),
        named("onnx::Conv_1442", vector),
        b,
        HIDDEN_DIM,
        INPUT_DIM,
        7,
        1,
        1,
        6,
        INPUT_DIM,
        fm,
        gn,
        len,
    );
    let p = convnext();
    assert forall|i: int| 0 <= i < DILATIONS@.len() implies {
        &&& #[trigger] DILATIONS@[i] > 0
        &&& reach(p.kernel as int, DILATIONS@[i] as int) + fm <= usize::MAX
        &&& reach(p.kernel as int, DILATIONS@[i] as int) + gn <= usize::MAX
    } by {
        assert(0 < DILATIONS@[i] <= 4);
    }
    lemma_stack(
        w,
        p,
        CONVNEXT_ROOT@,
        DILATIONS@,
        px.embed,
        py.embed,
        b,
        fm,
        gn,
        len,
        DILATIONS@.len() as int,
    );
    lemma_batch_norm(
        w,
        px.blocks,
        py.blocks,
        named("tts.ae.decoder.final_norm.norm.running_mean", vector),
        named("tts.ae.decoder.final_norm.norm.running_var", vector),
        named("tts.ae.decoder.final_norm.norm.weight", vector),
        named("tts.ae.decoder.final_norm.norm.bias", vector),
        b,
        HIDDEN_DIM,
        fm,
        gn,
        len,
    );
    lemma_causal(
        w,
        px.norm,
        py.norm,
        named("tts.ae.decoder.head.layer1.net.weight", Shape::D3(HEAD_DIM, HIDDEN_DIM, 3)),
        named("tts.ae.decoder.head.layer1.net.bias", Shape::D1(HEAD_DIM)),
        b,
        HEAD_DIM,
        HIDDEN_DIM,
        3,
        1,
        1,
        2,
        HIDDEN_DIM,
        fm,
        gn,
        len,
    );
    let alpha = named("onnx::PRelu_1506", Shape::D2(1, 1));
    lemma_single(w, Op::PRelu, px.head1, py.head1, alpha, b, HEAD_DIM, fm, gn, len);
    let last = named("tts.ae.decoder.head.layer2.weight", Shape::D3(HIDDEN_DIM, HEAD_DIM, 1));
    lemma_plain(w, px.act, py.act, last, b, HIDDEN_DIM, HEAD_DIM, fm, gn, len);
    let wx = meaning(w, px.wav);
    let wy = meaning(w, py.wav);
    lemma_meaning1(
        w,
        Op::Reshape(Shape::D2(b, (m * SAMPLES_PER_FRAME) as usize)),
        ap1(Op::SwapLast, px.head2),
    );
    lemma_meaning1(
        w,
        Op::Reshape(Shape::D2(b, (n * SAMPLES_PER_FRAME) as usize)),
        ap1(Op::SwapLast, py.head2),
    );
    assert forall|i: int, s: int|
        0 <= i < b && 0 <= s < t * SAMPLES_PER_FRAME implies #[trigger] (wx.at)(spot2(i, s)) == (
    wy.at)(spot2(i, s)) by {
        lemma_wav(w, px.head2, b, m, i, s);
        lemma_wav(w, py.head2, b, n, i, s);
        assert(element(meaning(w, px.head2), i, s % 512, s / 512) == element(
            meaning(w, py.head2),
            i,
            s % 512,
            s / 512,
        ));
    }
}

/// On the first `t` frames of a latent alone, the vocoder gives the first `t * 3072`
/// samples of each row.
pub proof fn law_first_frames_alone<R>(w: World<R>, latent: Expr, b: usize, total: usize, t: usize)
    requires
        meaning(w, latent).shape == Shape::D3(b, LATENT_DIM, total),
        0 < t <= total,
        total * SAMPLES_PER_FRAME <= usize::MAX,
    ensures
        ({
            let first = ap1(Op::Narrow { dim: 2, start: 0, len: t }, latent);
            let part = meaning(w, vocoder_parts(first, b, t).wav);
            let all = meaning(w, vocoder_parts(latent, b, total).wav);
            &&& all.shape == Shape::D2(b, (total * SAMPLES_PER_FRAME) as usize)
            &&& part.shape == Shape::D2(b, (t * SAMPLES_PER_FRAME) as usize)
            &&& forall|i: int, s: int|
                0 <= i < b && 0 <= s < t * SAMPLES_PER_FRAME ==> #[trigger] (part.at)(spot2(i, s))
                    == (all.at)(spot2(i, s))
        }),
{
    let narrow = Op::Narrow { dim: 2, start: 0, len: t };
    let first = ap1(narrow, latent);
    lemma_meaning1(w, narrow, latent);
    let x = meaning(w, first);
    let y = meaning(w, latent);
    assert(x == applied(w, narrow, seq![y]));
    assert forall|i: int, j: int, k: int|
        0 <= i < b && 0 <= j < LATENT_DIM && 0 <= k < t implies #[trigger] element(x, i, j, k)
        == element(y, i, j, k) by {}
    law_vocoder_is_causal(w, first, latent, b, t, total, t);
}

} // verus!
