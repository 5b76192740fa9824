//! What the vocoder computes, element by element.

use vstd::prelude::*;

use crate::model::candle::graph::{ap1, ap2, ap3, Expr, Op, Shape};
use crate::model::candle::layer_laws::{
    block_computes, channels, kernel_row, law_convnext_block, law_stack, lemma_plain_conv,
};
use crate::model::candle::layers::{stack_parts, stack_value};
use crate::model::candle::meaning::{
    convolved, lemma_meaning1, lemma_meaning2, lemma_meaning3, lemma_meaning5, meaning, nearest,
    shrunk, spot3, World,
};
use crate::model::candle::values::{over, plus, shape_of, times, v2, v3, w1, w3};
use crate::model::candle::vocoder::{convnext, unfolded, vocoder_parts, CONVNEXT_ROOT, DILATIONS};
use crate::model::candle::vocoder_laws::{apart, lemma_apart, lemma_wav};
use crate::strings::decimal;

verus! {

/// Whether a latent of `b` rows and `t` frames has its shape.
pub open spec fn latent_shaped<R>(w: World<R>, latent: Expr, b: usize, t: usize) -> bool {
    &&& shape_of(w, latent) == Shape::D3(b, 144, t)
    &&& b > 0
    &&& t > 0
    &&& t * 3072 <= usize::MAX
}

/// What kernels of `size` steps cover at step `k` in all channels: the step itself and
/// those behind it; before the first step, the first.
pub open spec fn behind<R>(
    w: World<R>,
    x: Expr,
    inp: int,
    size: int,
    n: int,
    i: int,
    k: int,
) -> Seq<R> {
    Seq::new(
        (inp * size) as nat,
        |q: int| v3(w, x, i, q / size, nearest(k + q % size - (size - 1), n)),
    )
}

/// The kernels that lead to channel `o`.
pub open spec fn kernels<R>(w: World<R>, name: Seq<char>, inp: int, size: int, o: int) -> Seq<R> {
    Seq::new((inp * size) as nat, |q: int| w3(w, name, o, q / size, q % size))
}

/// A convolution whose padding is all on the left.
#[verifier::rlimit(40)]
proof fn lemma_causal_conv<R>(
    w: World<R>,
    x: Expr,
    name: Seq<char>,
    bias: Seq<char>,
    b: usize,
    out: usize,
    inp: usize,
    size: usize,
    n: usize,
    i: int,
    o: int,
    k: int,
)
    requires
        shape_of(w, x) == Shape::D3(b, inp, n),
        size > 0,
        inp > 0,
        n > 0,
        n + size <= usize::MAX,
        0 <= o < out,
    ensures
        ({
            let pad = Op::PadEdge { left: (size - 1) as usize, right: 0 };
            let y = ap3(
                Op::Conv { dilation: 1, groups: 1 },
                ap1(pad, x),
                Expr::Weight(name, Shape::D3(out, inp, size)),
                Expr::Weight(bias, Shape::D1(out)),
            );
            &&& shape_of(w, y) == Shape::D3(b, out, n)
            &&& v3(w, y, i, o, k) == plus(
                w,
                (w.dot)(
                    behind(w, x, inp as int, size as int, n as int, i, k),
                    kernels(w, name, inp as int, size as int, o),
                ),
                w1(w, bias, o),
            )
        }),
{
    let pad = Op::PadEdge { left: (size - 1) as usize, right: 0 };
    let one = Op::Conv { dilation: 1, groups: 1 };
    let px = ap1(pad, x);
    let kernel = Expr::Weight(name, Shape::D3(out, inp, size));
    let shift = Expr::Weight(bias, Shape::D1(out));
    lemma_meaning1(w, pad, x);
    lemma_meaning3(w, one, px, kernel, shift);
    let mp = meaning(w, px);
    let mk = meaning(w, kernel);
    let group = o / (out as int / 1);
    assert(group == 0) by (nonlinear_arith)
        requires
            group == o / (out as int / 1),
            0 <= o < out,
    ;
    let l = size as int;
    let p = inp as int;
    assert(p * l >= 0) by (nonlinear_arith)
        requires
            p > 0,
            l > 0,
    ;
    let e = Seq::new(
        (p * l) as nat,
        |q: int| (mp.at)(spot3(i, group * p + q / l, k + 1 * (q % l))),
    );
    let f = Seq::new((p * l) as nat, |q: int| (mk.at)(spot3(o, q / l, q % l)));
    assert(convolved(w, 1, 1, mp, mk, spot3(i, o, k)) == (w.dot)(e, f));
    assert(0 * p == 0) by (nonlinear_arith);
    assert(e =~= behind(w, x, p, l, n as int, i, k));
    assert(f =~= kernels(w, name, p, l, o));
}

/// The latent is scaled back and its packed frames are taken apart: channel `c` of frame
/// `f` is channel `6 * c + f % 6` of packed frame `f / 6`, scaled and shifted.
pub proof fn law_vocoder_unfolds<R>(
    w: World<R>,
    latent: Expr,
    b: usize,
    t: usize,
    i: int,
    c: int,
    f: int,
)
    requires
        latent_shaped(w, latent, b, t),
        0 <= i < b,
        0 <= c < 24,
        0 <= f < t * 6,
    ensures
        ({
            let p = vocoder_parts(latent, b, t);
            &&& shape_of(w, p.unfolded) == Shape::D3(b, 24, (t * 6) as usize)
            &&& v3(w, p.unfolded, i, c, f) == plus(
                w,
                times(
                    w,
                    over(
                        w,
                        v3(w, latent, i, 6 * c + f % 6, f / 6),
                        w1(w, "tts.ttl.normalizer.scale"@, 0),
                    ),
                    w3(w, "tts.ae.latent_std"@, 0, c, 0),
                ),
                w3(w, "tts.ae.latent_mean"@, 0, c, 0),
            )
        }),
{
    let scale = Expr::Weight("tts.ttl.normalizer.scale"@, Shape::D0);
    let scaled = ap2(Op::OverScalar, latent, scale);
    lemma_meaning2(w, Op::OverScalar, latent, scale);
    let long = apart(scaled, b, t);
    lemma_apart(w, scaled, b, t, i, c, f);
    let four = Op::Reshape(Shape::D4(b, 24, 6, t));
    let three = Op::Reshape(Shape::D3(b, 24, (t * 6) as usize));
    lemma_meaning1(w, three, ap1(Op::SwapLast, ap1(four, scaled)));
    let each = Shape::D3(1, 24, 1);
    let std = Expr::Weight("tts.ae.latent_std"@, each);
    let mean = Expr::Weight("tts.ae.latent_mean"@, each);
    let wide = ap2(Op::Mul, long, std);
    lemma_meaning2(w, Op::Mul, long, std);
    lemma_meaning2(w, Op::Add, wide, mean);
    let n = (t * 6) as usize;
    assert(shrunk(Shape::D3(b, 24, n), spot3(i, c, f)) == spot3(i, c, f));
    assert(shrunk(each, spot3(i, c, f)) == spot3(0, c, 0));
    assert(v3(w, scaled, i, 6 * c + f % 6, f / 6) == over(
        w,
        v3(w, latent, i, 6 * c + f % 6, f / 6),
        w1(w, "tts.ttl.normalizer.scale"@, 0),
    ));
}

/// How far apart the kernels of block `j` reach.
pub open spec fn vocoder_dilation(j: int) -> int {
    if j == 1 || j == 4 {
        2
    } else if j == 2 || j == 5 {
        4
    } else {
        1
    }
}

/// The frames are embedded by kernels of seven steps that look behind only. Ten blocks of
/// 512 channels follow, each upon what the one before it leaves, with kernels of seven
/// steps that look behind only.
#[verifier::rlimit(40)]
pub proof fn law_vocoder_blocks<R>(
    w: World<R>,
    latent: Expr,
    b: usize,
    t: usize,
    j: int,
    i: int,
    c: int,
    k: int,
)
    requires
        latent_shaped(w, latent, b, t),
        0 <= j < 10,
        0 <= i < b,
        0 <= c < 512,
        0 <= k < t * 6,
    ensures
        ({
            let p = vocoder_parts(latent, b, t);
            let root = "tts.ae.decoder.convnext."@;
            let n = (t * 6) as usize;
            let before = stack_value(convnext(), root, DILATIONS@, p.embed, None, j);
            let after = stack_value(convnext(), root, DILATIONS@, p.embed, None, j + 1);
            let a = stack_parts(convnext(), root, DILATIONS@, p.embed, None, j);
            &&& v3(w, p.embed, i, c, k) == plus(
                w,
                (w.dot)(
                    behind(w, p.unfolded, 24, 7, n as int, i, k),
                    kernels(w, "onnx::Conv_1441"@, 24, 7, c),
                ),
                w1(w, "onnx::Conv_1442"@, c),
            )
            &&& j == 0 ==> before == p.embed
            &&& after == a.out
            &&& j == 9 ==> p.blocks == after
            &&& block_computes(
                w,
                a,
                root + decimal(j),
                ".dwconv.net"@,
                512,
                2048,
                7,
                vocoder_dilation(j),
                6 * vocoder_dilation(j),
                before,
                None,
                n as int,
                i,
                c,
                k,
            )
        }),
{
    let p = vocoder_parts(latent, b, t);
    let root = "tts.ae.decoder.convnext."@;
    let n = (t * 6) as usize;
    law_vocoder_unfolds(w, latent, b, t, 0, 0, 0);
    lemma_causal_conv(
        w,
        p.unfolded,
        "onnx::Conv_1441"@,
        "onnx::Conv_1442"@,
        b,
        512,
        24,
        7,
        n,
        i,
        c,
        k,
    );
    lemma_vocoder_stack(w, p.embed, b, n, j);
    let before = stack_value(convnext(), root, DILATIONS@, p.embed, None, j);
    assert(DILATIONS@[j] == vocoder_dilation(j));
    law_convnext_block(
        w,
        convnext(),
        root + decimal(j),
        DILATIONS@[j],
        before,
        None,
        b,
        n,
        i,
        c,
        k,
    );
}

/// The sizes of the stack of blocks fit its input.
proof fn lemma_vocoder_stack<R>(w: World<R>, x: Expr, b: usize, n: usize, count: int)
    requires
        shape_of(w, x) == Shape::D3(b, 512, n),
        b > 0,
        n > 0,
        n + 24 <= usize::MAX,
        0 <= count <= 10,
    ensures
        shape_of(w, stack_value(convnext(), CONVNEXT_ROOT@, DILATIONS@, x, None, count))
            == Shape::D3(b, 512, n),
{
    assert forall|j: int| 0 <= j < DILATIONS@.len() implies #[trigger] DILATIONS@[j] > 0 && n
        + DILATIONS@[j] * (convnext().kernel - 1) <= usize::MAX by {
        assert(0 < DILATIONS@[j] <= 4);
    }
    law_stack(w, convnext(), CONVNEXT_ROOT@, DILATIONS@, x, None, b, n, count);
}

/// A norm by stored means and variances follows, a convolution of three steps that looks
/// behind only, a PReLU and a projection to the 512 samples of each frame, which stand one
/// after the other.
#[verifier::rlimit(60)]
pub proof fn law_vocoder_head<R>(
    w: World<R>,
    latent: Expr,
    b: usize,
    t: usize,
    i: int,
    c: int,
    o: int,
    k: int,
    s: int,
)
    requires
        latent_shaped(w, latent, b, t),
        0 <= i < b,
        0 <= c < 512,
        0 <= o < 2048,
        0 <= k < t * 6,
        0 <= s < t * 3072,
    ensures
        ({
            let p = vocoder_parts(latent, b, t);
            let n = t * 6;
            &&& v3(w, p.norm, i, c, k) == plus(
                w,
                times(
                    w,
                    (w.normal_by)(
                        v3(w, p.blocks, i, c, k),
                        w1(w, "tts.ae.decoder.final_norm.norm.running_mean"@, c),
                        w1(w, "tts.ae.decoder.final_norm.norm.running_var"@, c),
                    ),
                    w1(w, "tts.ae.decoder.final_norm.norm.weight"@, c),
                ),
                w1(w, "tts.ae.decoder.final_norm.norm.bias"@, c),
            )
            &&& v3(w, p.head1, i, o, k) == plus(
                w,
                (w.dot)(
                    behind(w, p.norm, 512, 3, n, i, k),
                    kernels(w, "tts.ae.decoder.head.layer1.net.weight"@, 512, 3, o),
                ),
                w1(w, "tts.ae.decoder.head.layer1.net.bias"@, o),
            )
            &&& v3(w, p.act, i, o, k) == (w.paired)(
                Op::PRelu,
                v3(w, p.head1, i, o, k),
                w1(w, "onnx::PRelu_1506"@, 0),
            )
            &&& v3(w, p.head2, i, c, k) == (w.dot)(
                channels(w, p.act, 2048, i, k),
                kernel_row(w, "tts.ae.decoder.head.layer2.weight"@, 2048, c),
            )
            &&& v2(w, p.wav, i, s) == v3(w, p.head2, i, s % 512, s / 512)
        }),
{
    let p = vocoder_parts(latent, b, t);
    let n = (t * 6) as usize;
    law_vocoder_unfolds(w, latent, b, t, 0, 0, 0);
    lemma_causal_conv(
        w,
        p.unfolded,
        "onnx::Conv_1441"@,
        "onnx::Conv_1442"@,
        b,
        512,
        24,
        7,
        n,
        i,
        c,
        k,
    );
    lemma_vocoder_stack(w, p.embed, b, n, 10);
    let v = Shape::D1(512);
    lemma_meaning5(
        w,
        Op::BatchNorm,
        p.blocks,
        Expr::Weight("tts.ae.decoder.final_norm.norm.running_mean"@, v),
        Expr::Weight("tts.ae.decoder.final_norm.norm.running_var"@, v),
        Expr::Weight("tts.ae.decoder.final_norm.norm.weight"@, v),
        Expr::Weight("tts.ae.decoder.final_norm.norm.bias"@, v),
    );
    lemma_causal_conv(
        w,
        p.norm,
        "tts.ae.decoder.head.layer1.net.weight"@,
        "tts.ae.decoder.head.layer1.net.bias"@,
        b,
        2048,
        512,
        3,
        n,
        i,
        o,
        k,
    );
    let alpha = Expr::Weight("onnx::PRelu_1506"@, Shape::D2(1, 1));
    lemma_meaning2(w, Op::PRelu, p.head1, alpha);
    lemma_plain_conv(
        w,
        p.act,
        "tts.ae.decoder.head.layer2.weight"@,
        b,
        512,
        2048,
        n,
        i,
        c,
        k,
    );
    lemma_wav(w, p.head2, b, t, i, s);
}

} // verus!
