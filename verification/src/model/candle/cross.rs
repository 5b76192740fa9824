//! Attention to a style, and the projections around it.

use vstd::prelude::*;

use crate::model::candle::graph::{ap1, ap2, ap3, Expr, Op, Shape, Tape};
use crate::model::candle::layers::{take_weight, weight};
use crate::strings::{decimal, join_number};

verus! {

/// A matrix that is stored by its number, as `[inp, out]`.
pub open spec fn matrix(id: int, inp: usize, out: usize) -> Expr {
    Expr::Weight("onnx::MatMul_"@ + decimal(id), Shape::D2(inp, out))
}

/// Takes a matrix that is stored by its number.
pub fn take_matrix(tape: &mut Tape, id: usize, inp: usize, out: usize) -> (r: usize)
    requires
        old(tape).wf(),
    ensures
        final(tape).wf(),
        final(tape).grown(old(tape), r, matrix(id as int, inp, out), Shape::D2(inp, out)),
{
    let name = join_number("onnx::MatMul_", id, "");
    assert(name@ == "onnx::MatMul_"@ + decimal(id as int)) by {
        reveal_strlit("");
    }
    tape.weight(name, Shape::D2(inp, out))
}

/// The weights of a projection: a matrix, turned over, and a bias.
#[derive(Debug, Clone, Copy, PartialEq, Eq, Structural)]
pub struct Projection {
    pub weight: usize,
    pub bias: usize,
}

/// The projection by matrix `id`, with the bias under `prefix`.
pub open spec fn projected(
    id: int,
    prefix: Seq<char>,
    name: &'static str,
    inp: usize,
    out: usize,
    x: Expr,
) -> Expr {
    ap3(
        Op::Linear,
        x,
        ap1(Op::SwapLast, matrix(id, inp, out)),
        weight(prefix, name, Shape::D1(out)),
    )
}

impl Projection {
    /// Whether the projection by matrix `id` is loaded.
    pub open spec fn loaded(
        self,
        tape: &Tape,
        id: int,
        prefix: Seq<char>,
        name: &'static str,
        inp: usize,
        out: usize,
    ) -> bool {
        &&& tape.holds(
            self.weight,
            ap1(Op::SwapLast, matrix(id, inp, out)),
            Shape::D2(out, inp),
        )
        &&& tape.holds(self.bias, weight(prefix, name, Shape::D1(out)), Shape::D1(out))
    }

    /// Loads the projection by matrix `id`.
    pub fn load(
        tape: &mut Tape,
        id: usize,
        prefix: &str,
        name: &'static str,
        inp: usize,
        out: usize,
    ) -> (r: Projection)
        requires
            old(tape).wf(),
        ensures
            final(tape).wf(),
            final(tape).extends(old(tape)),
            final(tape).seen@ == old(tape).seen@,
            r.loaded(final(tape), id as int, prefix@, name, inp, out),
    {
        let raw = take_matrix(tape, id, inp, out);
        let turned = tape.op1(Op::SwapLast, raw);
        let bias = take_weight(tape, prefix, name, Shape::D1(out));
        Projection { weight: turned, bias }
    }

    /// Projects the last dimension of `x`, of `[b, n, inp]`.
    pub(crate) fn forward(
        &self,
        tape: &mut Tape,
        x: usize,
        b: usize,
        n: usize,
        inp: usize,
        out: usize,
        id: Ghost<int>,
        prefix: Ghost<Seq<char>>,
        name: Ghost<&'static str>,
    ) -> (r: usize)
        requires
            old(tape).wf(),
            self.loaded(old(tape), id@, prefix@, name@, inp, out),
            old(tape).has(x, Shape::D3(b, n, inp)),
        ensures
            final(tape).wf(),
            final(tape).grown(
                old(tape),
                r,
                projected(id@, prefix@, name@, inp, out, old(tape).value(x)),
                Shape::D3(b, n, out),
            ),
    {
        tape.op3(Op::Linear, x, self.weight, self.bias)
    }
}

/// The channels of `[b, n, heads * dim]` dealt out to the heads:
/// `[b, heads, n, dim]`.
pub open spec fn dealt(x: Expr, b: usize, n: usize, heads: usize, dim: usize) -> Expr {
    ap1(Op::SwapMiddle, ap1(Op::Reshape(Shape::D4(b, n, heads, dim)), x))
}

/// The heads of `[b, heads, n, dim]` put together again.
pub open spec fn gathered(x: Expr, b: usize, n: usize, width: usize) -> Expr {
    ap1(Op::Reshape(Shape::D3(b, n, width)), ap1(Op::SwapMiddle, x))
}

/// Deals the channels out to the heads.
pub fn deal(tape: &mut Tape, x: usize, b: usize, n: usize, heads: usize, dim: usize, width: usize)
    -> (r: usize)
    requires
        old(tape).wf(),
        width == heads * dim,
        old(tape).has(x, Shape::D3(b, n, width)),
    ensures
        final(tape).wf(),
        final(tape).extends(old(tape)),
        final(tape).seen@ == old(tape).seen@,
        final(tape).holds(
            r,
            dealt(old(tape).value(x), b, n, heads, dim),
            Shape::D4(b, heads, n, dim),
        ),
{
    assert(b * n * width == b * n * heads * dim) by (nonlinear_arith)
        requires
            width == heads * dim,
    ;
    let h = tape.op1(Op::Reshape(Shape::D4(b, n, heads, dim)), x);
    tape.op1(Op::SwapMiddle, h)
}

/// Puts the heads together again.
pub fn gather_heads(
    tape: &mut Tape,
    x: usize,
    b: usize,
    n: usize,
    heads: usize,
    dim: usize,
    width: usize,
) -> (r: usize)
    requires
        old(tape).wf(),
        width == heads * dim,
        old(tape).has(x, Shape::D4(b, heads, n, dim)),
    ensures
        final(tape).wf(),
        final(tape).extends(old(tape)),
        final(tape).seen@ == old(tape).seen@,
        final(tape).holds(
            r,
            gathered(old(tape).value(x), b, n, width),
            Shape::D3(b, n, width),
        ),
{
    let h = tape.op1(Op::SwapMiddle, x);
    assert(b * n * heads * dim == b * n * width) by (nonlinear_arith)
        requires
            width == heads * dim,
    ;
    tape.op1(Op::Reshape(Shape::D3(b, n, width)), h)
}

/// Attention to a style, with two heads: the keys are squashed before they are
/// compared, and the scores are divided by the root of the width of all heads.
pub open spec fn style_attention(
    q: Expr,
    k: Expr,
    v: Expr,
    b: usize,
    n: usize,
    m: usize,
    dim: usize,
    width: usize,
) -> Expr {
    let kt = ap1(Op::Tanh, ap1(Op::SwapLast, dealt(k, b, m, 2, dim)));
    let scores = ap1(Op::InvSqrt(width), ap2(Op::MatMul, dealt(q, b, n, 2, dim), kt));
    gathered(
        ap2(Op::MatMul, ap1(Op::Softmax, scores), dealt(v, b, m, 2, dim)),
        b,
        n,
        width,
    )
}

/// Attends to a style of `m` rows from `n` steps.
pub fn attend_style(
    tape: &mut Tape,
    q: usize,
    k: usize,
    v: usize,
    b: usize,
    n: usize,
    m: usize,
    dim: usize,
    width: usize,
) -> (r: usize)
    requires
        old(tape).wf(),
        width == 2 * dim,
        dim > 0,
        old(tape).has(q, Shape::D3(b, n, width)),
        old(tape).has(k, Shape::D3(b, m, width)),
        old(tape).has(v, Shape::D3(b, m, width)),
    ensures
        final(tape).wf(),
        final(tape).extends(old(tape)),
        final(tape).seen@ == old(tape).seen@,
        final(tape).holds(
            r,
            style_attention(
                old(tape).value(q),
                old(tape).value(k),
                old(tape).value(v),
                b,
                n,
                m,
                dim,
                width,
            ),
            Shape::D3(b, n, width),
        ),
{
    let qh = deal(tape, q, b, n, 2, dim, width);
    let kh = deal(tape, k, b, m, 2, dim, width);
    let vh = deal(tape, v, b, m, 2, dim, width);
    let kt = tape.op1(Op::SwapLast, kh);
    let kt = tape.op1(Op::Tanh, kt);
    let h = tape.op2(Op::MatMul, qh, kt);
    let h = tape.op1(Op::InvSqrt(width), h);
    let h = tape.op1(Op::Softmax, h);
    let h = tape.op2(Op::MatMul, h, vh);
    gather_heads(tape, h, b, n, 2, dim, width)
}

} // verus!
