//! What the layers that the networks share compute, element by element.

use vstd::prelude::*;

use crate::model::candle::cross::{matrix, projected};
use crate::model::candle::graph::{ap1, ap2, Expr, Op, Shape};
use crate::model::candle::layers::{
    channel_norm, masked, pad_left, pointwise, reach, stack_value, weight, ConvNextParts,
    ConvNextSpec,
};
use crate::model::candle::meaning::{
    convolved, lemma_meaning1, lemma_meaning2, lemma_meaning3, meaning, nearest, row, spot2, spot3,
    World,
};
use crate::model::candle::values::{plus, shape_of, times, v3, w1, w2, w3};
use crate::strings::decimal;

verus! {

/// The channels of step `k`.
pub open spec fn channels<R>(w: World<R>, x: Expr, n: int, i: int, k: int) -> Seq<R> {
    Seq::new(n as nat, |c: int| v3(w, x, i, c, k))
}

/// The last dimension of a value of three dimensions.
pub open spec fn tail<R>(w: World<R>, x: Expr, n: int, i: int, j: int) -> Seq<R> {
    Seq::new(n as nat, |c: int| v3(w, x, i, j, c))
}

/// The kernels of length one that lead to channel `o`.
pub open spec fn kernel_row<R>(w: World<R>, name: Seq<char>, n: int, o: int) -> Seq<R> {
    Seq::new(n as nat, |c: int| w3(w, name, o, c, 0))
}

/// The column of a matrix that leads to channel `o`.
pub open spec fn column<R>(w: World<R>, name: Seq<char>, n: int, o: int) -> Seq<R> {
    Seq::new(n as nat, |c: int| w2(w, name, c, o))
}

/// An element normalized among the given ones, scaled and shifted.
pub open spec fn normed<R>(w: World<R>, row: Seq<R>, prefix: Seq<char>, c: int) -> R {
    plus(
        w,
        times(w, (w.normal)(row, c), w1(w, prefix + ".weight"@, c)),
        w1(w, prefix + ".bias"@, c),
    )
}

// ---------------------------------------------------------------------------
// Single layers
// ---------------------------------------------------------------------------

/// The element of a convolution of kernel length one without a bias.
pub proof fn lemma_plain_conv<R>(
    w: World<R>,
    x: Expr,
    name: Seq<char>,
    b: usize,
    out: usize,
    inp: usize,
    n: usize,
    i: int,
    o: int,
    k: int,
)
    requires
        shape_of(w, x) == Shape::D3(b, inp, n),
        0 <= o < out,
    ensures
        ({
            let kernel = Expr::Weight(name, Shape::D3(out, inp, 1));
            let y = ap2(Op::Conv { dilation: 1, groups: 1 }, x, kernel);
            &&& shape_of(w, y) == Shape::D3(b, out, n)
            &&& v3(w, y, i, o, k) == (w.dot)(
                channels(w, x, inp as int, i, k),
                kernel_row(w, name, inp as int, o),
            )
        }),
{
    let one = Op::Conv { dilation: 1, groups: 1 };
    let kernel = Expr::Weight(name, Shape::D3(out, inp, 1));
    lemma_meaning2(w, one, x, kernel);
    lemma_one_tap(w, x, kernel, b, out, inp, n, i, o, k);
    assert(1 * (1 - 1) == 0);
    assert(Seq::new(inp as nat, |c: int| v3(w, kernel, o, c, 0)) =~= kernel_row(
        w,
        name,
        inp as int,
        o,
    ));
}

/// The sum that a convolution of kernel length one takes over the channels.
proof fn lemma_one_tap<R>(
    w: World<R>,
    x: Expr,
    kernel: Expr,
    b: usize,
    out: usize,
    inp: usize,
    n: usize,
    i: int,
    o: int,
    k: int,
)
    requires
        shape_of(w, x) == Shape::D3(b, inp, n),
        shape_of(w, kernel) == Shape::D3(out, inp, 1),
        0 <= o < out,
    ensures
        convolved(w, 1, 1, meaning(w, x), meaning(w, kernel), spot3(i, o, k)) == (w.dot)(
            channels(w, x, inp as int, i, k),
            Seq::new(inp as nat, |c: int| v3(w, kernel, o, c, 0)),
        ),
{
    let mx = meaning(w, x);
    let mk = meaning(w, kernel);
    let group = o / (out as int / 1);
    assert(group == 0) by (nonlinear_arith)
        requires
            group == o / (out as int / 1),
            0 <= o < out,
    ;
    let count = (inp as int * 1) as nat;
    assert(inp as int * 1 == inp) by (nonlinear_arith);
    let a = Seq::new(
        count,
        |q: int| (mx.at)(spot3(i, group * inp as int + q / 1, k + 1 * (q % 1))),
    );
    let e = Seq::new(count, |q: int| (mk.at)(spot3(o, q / 1, q % 1)));
    assert(convolved(w, 1, 1, mx, mk, spot3(i, o, k)) == (w.dot)(a, e));
    assert(0 * inp as int == 0) by (nonlinear_arith);
    assert(a =~= channels(w, x, inp as int, i, k));
    assert(e =~= Seq::new(inp as nat, |c: int| v3(w, kernel, o, c, 0)));
}

/// A pointwise convolution takes each step by itself: for each channel, the products of
/// the channels with its kernels, and its bias.
pub proof fn law_pointwise<R>(
    w: World<R>,
    prefix: Seq<char>,
    x: Expr,
    b: usize,
    out: usize,
    inp: usize,
    n: usize,
    i: int,
    o: int,
    k: int,
)
    requires
        shape_of(w, x) == Shape::D3(b, inp, n),
        0 <= o < out,
    ensures
        shape_of(w, pointwise(prefix, out, inp, x)) == Shape::D3(b, out, n),
        v3(w, pointwise(prefix, out, inp, x), i, o, k) == plus(
            w,
            (w.dot)(
                channels(w, x, inp as int, i, k),
                kernel_row(w, prefix + ".weight"@, inp as int, o),
            ),
            w1(w, prefix + ".bias"@, o),
        ),
{
    let one = Op::Conv { dilation: 1, groups: 1 };
    let kernel = Expr::Weight(prefix + ".weight"@, Shape::D3(out, inp, 1));
    let bias = Expr::Weight(prefix + ".bias"@, Shape::D1(out));
    lemma_meaning3(w, one, x, kernel, bias);
    lemma_one_tap(w, x, kernel, b, out, inp, n, i, o, k);
    assert(1 * (1 - 1) == 0);
    assert(Seq::new(inp as nat, |c: int| v3(w, kernel, o, c, 0)) =~= kernel_row(
        w,
        prefix + ".weight"@,
        inp as int,
        o,
    ));
}

/// A norm over the channels normalizes each step by itself. Its result has the channels
/// last.
pub proof fn law_channel_norm<R>(
    w: World<R>,
    prefix: Seq<char>,
    x: Expr,
    b: usize,
    n: usize,
    t: usize,
    i: int,
    k: int,
    c: int,
)
    requires
        shape_of(w, x) == Shape::D3(b, n, t),
    ensures
        shape_of(w, channel_norm(prefix, n, x)) == Shape::D3(b, t, n),
        shape_of(w, ap1(Op::SwapLast, channel_norm(prefix, n, x))) == Shape::D3(b, n, t),
        v3(w, channel_norm(prefix, n, x), i, k, c) == normed(
            w,
            channels(w, x, n as int, i, k),
            prefix,
            c,
        ),
        v3(w, ap1(Op::SwapLast, channel_norm(prefix, n, x)), i, c, k) == normed(
            w,
            channels(w, x, n as int, i, k),
            prefix,
            c,
        ),
{
    let turned = ap1(Op::SwapLast, x);
    let scale = Expr::Weight(prefix + ".weight"@, Shape::D1(n));
    let shift = Expr::Weight(prefix + ".bias"@, Shape::D1(n));
    let y = channel_norm(prefix, n, x);
    lemma_meaning1(w, Op::SwapLast, x);
    lemma_meaning3(w, Op::LayerNorm, turned, scale, shift);
    lemma_meaning1(w, Op::SwapLast, y);
    assert(row(meaning(w, turned), spot3(i, k, c)) =~= channels(w, x, n as int, i, k));
}

/// A projection takes each row by itself: for each channel, the products of the row with
/// its column of the matrix, and its bias.
pub proof fn law_projected<R>(
    w: World<R>,
    id: int,
    prefix: Seq<char>,
    name: &'static str,
    inp: usize,
    out: usize,
    x: Expr,
    b: usize,
    n: usize,
    i: int,
    j: int,
    o: int,
)
    requires
        shape_of(w, x) == Shape::D3(b, n, inp),
    ensures
        shape_of(w, projected(id, prefix, name, inp, out, x)) == Shape::D3(b, n, out),
        v3(w, projected(id, prefix, name, inp, out, x), i, j, o) == plus(
            w,
            (w.dot)(
                tail(w, x, inp as int, i, j),
                column(w, "onnx::MatMul_"@ + decimal(id), inp as int, o),
            ),
            w1(w, prefix + name@, o),
        ),
{
    let m = matrix(id, inp, out);
    let turned = ap1(Op::SwapLast, m);
    let bias = Expr::Weight(prefix + name@, Shape::D1(out));
    lemma_meaning1(w, Op::SwapLast, m);
    lemma_meaning3(w, Op::Linear, x, turned, bias);
    assert(row(meaning(w, x), spot3(i, j, o)) =~= tail(w, x, inp as int, i, j));
    let mt = meaning(w, turned);
    assert(Seq::new(inp as nat, |q: int| (mt.at)(spot2(o, q))) =~= column(
        w,
        "onnx::MatMul_"@ + decimal(id),
        inp as int,
        o,
    ));
}

// ---------------------------------------------------------------------------
// ConvNeXt
// ---------------------------------------------------------------------------

/// A value under a mask.
pub open spec fn under<R>(w: World<R>, x: R, mask: Option<Expr>, i: int, k: int) -> R {
    match mask {
        Some(m) => times(w, x, v3(w, m, i, 0, k)),
        None => x,
    }
}

/// Whether a mask has its shape, if there is one.
pub open spec fn mask_shaped<R>(w: World<R>, mask: Option<Expr>, b: usize, n: usize) -> bool {
    mask matches Some(m) ==> shape_of(w, m) == Shape::D3(b, 1, n)
}

/// Whether the sizes of a block and of its input make sense.
pub open spec fn block_shaped<R>(
    w: World<R>,
    p: ConvNextSpec,
    dilation: usize,
    x: Expr,
    mask: Option<Expr>,
    b: usize,
    n: usize,
) -> bool {
    &&& p.channels > 0
    &&& p.inner > 0
    &&& p.kernel > 0
    &&& dilation > 0
    &&& n > 0
    &&& n + dilation * (p.kernel - 1) <= usize::MAX
    &&& shape_of(w, x) == Shape::D3(b, p.channels, n)
    &&& mask_shaped(w, mask, b, n)
}

/// What the kernel of channel `c` covers at step `k`: a tap for each step that is a
/// multiple of `dilation` away, `left` of them behind; beyond an end, the step at the end.
pub open spec fn covered<R>(
    w: World<R>,
    x: Expr,
    kernel: int,
    dilation: int,
    left: int,
    n: int,
    i: int,
    c: int,
    k: int,
) -> Seq<R> {
    Seq::new(kernel as nat, |q: int| v3(w, x, i, c, nearest(k + dilation * q - left, n)))
}

/// What holds of the parts of a block at channel `c` of step `k`, with `left` steps of
/// padding on the left.
pub open spec fn block_computes<R>(
    w: World<R>,
    a: ConvNextParts,
    prefix: Seq<char>,
    dwconv: Seq<char>,
    width: int,
    inner: int,
    kernel: int,
    dilation: int,
    left: int,
    x: Expr,
    mask: Option<Expr>,
    n: int,
    i: int,
    c: int,
    k: int,
) -> bool {
    // Each channel is convolved by itself.
    &&& v3(w, a.dwconv, i, c, k) == plus(
        w,
        (w.dot)(
            covered(w, x, kernel, dilation, left, n, i, c, k),
            Seq::new(kernel as nat, |q: int| w3(w, prefix + dwconv + ".weight"@, c, 0, q)),
        ),
        w1(w, prefix + dwconv + ".bias"@, c),
    )
    // The channels of a step are normalized.
    &&& v3(w, a.norm, i, k, c) == normed(
        w,
        Seq::new(width as nat, |d: int| under(w, v3(w, a.dwconv, i, d, k), mask, i, k)),
        prefix + ".norm.norm"@,
        c,
    )
    // Two layers act on each step.
    &&& forall|o: int|
        0 <= o < inner ==> #[trigger] v3(w, a.pwconv1, i, o, k) == plus(
            w,
            (w.dot)(
                tail(w, a.norm, width, i, k),
                kernel_row(w, prefix + ".pwconv1"@ + ".weight"@, width, o),
            ),
            w1(w, prefix + ".pwconv1"@ + ".bias"@, o),
        )
    &&& v3(w, a.pwconv2, i, c, k) == plus(
        w,
        (w.dot)(
            Seq::new(inner as nat, |o: int| (w.alone)(Op::Gelu, v3(w, a.pwconv1, i, o, k))),
            kernel_row(w, prefix + ".pwconv2"@ + ".weight"@, inner, c),
        ),
        w1(w, prefix + ".pwconv2"@ + ".bias"@, c),
    )
    // The result is scaled and added to the input.
    &&& v3(w, a.sum, i, c, k) == plus(
        w,
        v3(w, x, i, c, k),
        times(w, v3(w, a.pwconv2, i, c, k), w3(w, prefix + ".gamma"@, 0, c, 0)),
    )
    &&& v3(w, a.out, i, c, k) == under(w, v3(w, a.sum, i, c, k), mask, i, k)
}

/// The depthwise convolution of a block.
proof fn lemma_dwconv<R>(
    w: World<R>,
    p: ConvNextSpec,
    prefix: Seq<char>,
    dilation: usize,
    x: Expr,
    mask: Option<Expr>,
    b: usize,
    n: usize,
    i: int,
    c: int,
    k: int,
)
    requires
        block_shaped(w, p, dilation, x, mask, b, n),
        0 <= c < p.channels,
    ensures
        ({
            let a = p.parts(prefix, dilation, x, mask);
            let total = dilation * (p.kernel - 1);
            let left = if p.causal {
                total
            } else {
                total / 2
            };
            &&& shape_of(w, a.dwconv) == Shape::D3(b, p.channels, n)
            &&& v3(w, a.dwconv, i, c, k) == plus(
                w,
                (w.dot)(
                    covered(
                        w,
                        x,
                        p.kernel as int,
                        dilation as int,
                        left,
                        n as int,
                        i,
                        c,
                        k,
                    ),
                    Seq::new(
                        p.kernel as nat,
                        |q: int| w3(w, prefix + p.dwconv@ + ".weight"@, c, 0, q),
                    ),
                ),
                w1(w, prefix + p.dwconv@ + ".bias"@, c),
            )
        }),
{
    let width = p.channels;
    let total = reach(p.kernel as int, dilation as int);
    assert(total >= 0) by (nonlinear_arith)
        requires
            total == dilation * (p.kernel - 1),
            dilation > 0,
            p.kernel > 0,
    ;
    let left = pad_left(p.causal, total);
    let pad = Op::PadEdge { left: left as usize, right: (total - left) as usize };
    let conv = Op::Conv { dilation, groups: width };
    let px = ap1(pad, x);
    let kernel = Expr::Weight(prefix + p.dwconv@ + ".weight"@, Shape::D3(width, 1, p.kernel));
    let bias = Expr::Weight(prefix + p.dwconv@ + ".bias"@, Shape::D1(width));
    lemma_meaning1(w, pad, x);
    lemma_meaning3(w, conv, px, kernel, bias);
    let mp = meaning(w, px);
    let mk = meaning(w, kernel);
    let len = p.kernel as int;
    let d = dilation as int;
    let group = c / (width as int / width as int);
    assert(width as int / width as int == 1) by (nonlinear_arith)
        requires
            width > 0,
    ;
    assert(group == c);
    assert(1 * len == len) by (nonlinear_arith);
    let e = Seq::new(
        (1 * len) as nat,
        |q: int| (mp.at)(spot3(i, group * 1 + q / len, k + d * (q % len))),
    );
    let f = Seq::new((1 * len) as nat, |q: int| (mk.at)(spot3(c, q / len, q % len)));
    assert(convolved(w, d, width as int, mp, mk, spot3(i, c, k)) == (w.dot)(e, f));
    let near = covered(w, x, len, d, left, n as int, i, c, k);
    let taps = Seq::new(
        p.kernel as nat,
        |q: int| w3(w, prefix + p.dwconv@ + ".weight"@, c, 0, q),
    );
    assert forall|q: int| 0 <= q < len implies #[trigger] e[q] == near[q] by {
        vstd::arithmetic::div_mod::lemma_fundamental_div_mod_converse(q, len, 0, q);
    }
    assert forall|q: int| 0 <= q < len implies #[trigger] f[q] == taps[q] by {
        vstd::arithmetic::div_mod::lemma_fundamental_div_mod_converse(q, len, 0, q);
    }
    assert(e =~= near);
    assert(f =~= taps);
}

/// A value under a mask, if there is one.
proof fn lemma_masked<R>(
    w: World<R>,
    x: Expr,
    mask: Option<Expr>,
    b: usize,
    c: usize,
    n: usize,
    i: int,
    j: int,
    k: int,
)
    requires
        shape_of(w, x) == Shape::D3(b, c, n),
        mask_shaped(w, mask, b, n),
        0 <= i < b,
        0 <= j < c,
        0 <= k < n,
    ensures
        shape_of(w, masked(x, mask)) == Shape::D3(b, c, n),
        v3(w, masked(x, mask), i, j, k) == under(w, v3(w, x, i, j, k), mask, i, k),
{
    match mask {
        Some(m) => {
            lemma_meaning2(w, Op::Mul, x, m);
        },
        None => {},
    }
}

/// A ConvNeXt block mixes the steps of each channel, then the channels of each step, and
/// adds the result to its input.
#[verifier::rlimit(40)]
pub proof fn law_convnext_block<R>(
    w: World<R>,
    p: ConvNextSpec,
    prefix: Seq<char>,
    dilation: usize,
    x: Expr,
    mask: Option<Expr>,
    b: usize,
    n: usize,
    i: int,
    c: int,
    k: int,
)
    requires
        block_shaped(w, p, dilation, x, mask, b, n),
        0 <= i < b,
        0 <= c < p.channels,
        0 <= k < n,
    ensures
        shape_of(w, p.parts(prefix, dilation, x, mask).out) == Shape::D3(b, p.channels, n),
        block_computes(
            w,
            p.parts(prefix, dilation, x, mask),
            prefix,
            p.dwconv@,
            p.channels as int,
            p.inner as int,
            p.kernel as int,
            dilation as int,
            if p.causal {
                dilation * (p.kernel - 1)
            } else {
                dilation * (p.kernel - 1) / 2
            },
            x,
            mask,
            n as int,
            i,
            c,
            k,
        ),
{
    let a = p.parts(prefix, dilation, x, mask);
    let width = p.channels as int;
    let inner = p.inner as int;
    lemma_dwconv(w, p, prefix, dilation, x, mask, b, n, i, c, k);
    let hidden = masked(a.dwconv, mask);
    assert forall|d: int| 0 <= d < width implies v3(w, hidden, i, d, k) == under(
        w,
        #[trigger] v3(w, a.dwconv, i, d, k),
        mask,
        i,
        k,
    ) by {
        lemma_masked(w, a.dwconv, mask, b, p.channels, n, i, d, k);
    }
    lemma_masked(w, a.dwconv, mask, b, p.channels, n, i, c, k);
    assert(channels(w, hidden, width, i, k) =~= Seq::new(
        width as nat,
        |d: int| under(w, v3(w, a.dwconv, i, d, k), mask, i, k),
    ));
    law_channel_norm(w, prefix + ".norm.norm"@, hidden, b, p.channels, n, i, k, c);
    let turned = ap1(Op::SwapLast, a.norm);
    lemma_meaning1(w, Op::SwapLast, a.norm);
    assert(channels(w, turned, width, i, k) =~= tail(w, a.norm, width, i, k));
    assert forall|o: int| 0 <= o < inner implies #[trigger] v3(w, a.pwconv1, i, o, k) == plus(
        w,
        (w.dot)(
            tail(w, a.norm, width, i, k),
            kernel_row(w, prefix + ".pwconv1"@ + ".weight"@, width, o),
        ),
        w1(w, prefix + ".pwconv1"@ + ".bias"@, o),
    ) by {
        law_pointwise(w, prefix + ".pwconv1"@, turned, b, p.inner, p.channels, n, i, o, k);
    }
    law_pointwise(w, prefix + ".pwconv1"@, turned, b, p.inner, p.channels, n, i, 0, k);
    let act = ap1(Op::Gelu, a.pwconv1);
    lemma_meaning1(w, Op::Gelu, a.pwconv1);
    assert(channels(w, act, inner, i, k) =~= Seq::new(
        inner as nat,
        |o: int| (w.alone)(Op::Gelu, v3(w, a.pwconv1, i, o, k)),
    ));
    law_pointwise(w, prefix + ".pwconv2"@, act, b, p.channels, p.inner, n, i, c, k);
    let gamma = Expr::Weight(prefix + ".gamma"@, Shape::D3(1, p.channels, 1));
    let scaled = ap2(Op::Mul, a.pwconv2, gamma);
    lemma_meaning2(w, Op::Mul, a.pwconv2, gamma);
    lemma_meaning2(w, Op::Add, x, scaled);
    assert(a.sum == ap2(Op::Add, x, scaled));
    lemma_masked(w, a.sum, mask, b, p.channels, n, i, c, k);
}

/// The blocks of a stack follow one another: block `j` acts on what the blocks before it
/// leave, and the first on the input.
pub proof fn law_stack<R>(
    w: World<R>,
    p: ConvNextSpec,
    root: Seq<char>,
    dilations: Seq<usize>,
    x: Expr,
    mask: Option<Expr>,
    b: usize,
    n: usize,
    count: int,
)
    requires
        0 <= count <= dilations.len(),
        p.wf(),
        n > 0,
        shape_of(w, x) == Shape::D3(b, p.channels, n),
        mask_shaped(w, mask, b, n),
        b > 0,
        forall|j: int|
            0 <= j < dilations.len() ==> #[trigger] dilations[j] > 0 && n + dilations[j] * (p.kernel
                - 1) <= usize::MAX,
    ensures
        stack_value(p, root, dilations, x, mask, 0) == x,
        shape_of(w, stack_value(p, root, dilations, x, mask, count)) == Shape::D3(b, p.channels, n),
        count > 0 ==> block_shaped(
            w,
            p,
            dilations[count - 1],
            stack_value(p, root, dilations, x, mask, count - 1),
            mask,
            b,
            n,
        ),
        count > 0 ==> stack_value(p, root, dilations, x, mask, count) == p.parts(
            root + decimal(count - 1),
            dilations[count - 1],
            stack_value(p, root, dilations, x, mask, count - 1),
            mask,
        ).out,
    decreases count,
{
    if count > 0 {
        law_stack(w, p, root, dilations, x, mask, b, n, count - 1);
        let before = stack_value(p, root, dilations, x, mask, count - 1);
        assert(dilations[count - 1] > 0);
        law_convnext_block(
            w,
            p,
            root + decimal(count - 1),
            dilations[count - 1],
            before,
            mask,
            b,
            n,
            0,
            0,
            0,
        );
    }
}

} // verus!
