//! The layers by which time, text and style act on the flow.
//!
//! The flow runs on two rows at once: the first is conditioned on the utterance,
//! the second is not.

use vstd::prelude::*;

use crate::model::candle::attention::normalize;
use crate::model::candle::cross::{
    attend_style, deal, dealt, gather_heads, gathered, matrix, projected, style_attention,
    take_matrix, Projection,
};
use crate::model::candle::graph::{ap1, ap2, Expr, Op, Shape, Tape};
use crate::model::candle::layers::{channel_norm, named, take_weight, weight, Pair};
use crate::strings::{decimal, join, join_number};

verus! {

/// Channels of the flow.
pub const HIDDEN: usize = 512;

/// Channels of the embedding of the time.
pub const TIME_DIM: usize = 64;

/// Channels of the embedding of the text.
pub const TEXT_DIM: usize = 256;

/// The flow attends to the text with this many heads.
pub const TEXT_HEADS: usize = 8;

/// Channels of such a head, and half of them.
pub const TEXT_HEAD_DIM: usize = 64;

pub const ROTARY_DIM: usize = 32;

/// Channels of the style, and of what attends to it.
pub const STYLE_DIM: usize = 256;

/// Channels of one of the two heads that attend to the style.
pub const STYLE_HEAD_DIM: usize = 128;

/// Rows of the style.
pub const N_STYLE: usize = 50;

/// Rows that the flow runs on.
pub const ROWS: usize = 2;

/// The number of the first matrix, and of matrices from one block to the next.
pub const FIRST_MATRIX: usize = 3384;

pub const MATRICES_PER_BLOCK: usize = 45;

/// Parts of a block.
pub const PARTS_PER_BLOCK: usize = 6;

/// Where the parts of the blocks stand.
pub const BLOCKS_ROOT: &'static str = "vector_estimator.tts.ttl.vector_field.main_blocks.";

/// Where the angles of the rotations stand.
pub const THETA: &'static str = "vector_estimator.tts.ttl.vector_field.main_blocks.3.attn.theta";

/// The number of a matrix of a block.
pub open spec fn matrix_id(block: int, offset: int) -> int {
    FIRST_MATRIX + block * MATRICES_PER_BLOCK + offset
}

/// The number of a part of a block, among the parts of all blocks.
pub open spec fn part_number(block: int, offset: int) -> int {
    block * PARTS_PER_BLOCK + offset
}

/// Where a part of a block stands.
pub open spec fn part_prefix(block: int, offset: int) -> Seq<char> {
    BLOCKS_ROOT@ + decimal(part_number(block, offset))
}

/// What the names of the results of a part of a block begin with.
pub open spec fn part_name(block: int, offset: int) -> Seq<char> {
    "main_blocks."@ + decimal(part_number(block, offset)) + "/"@
}

/// Where a part of a block stands.
pub fn part_prefix_of(block: usize, offset: usize) -> (r: String)
    requires
        block < 4,
        offset < PARTS_PER_BLOCK,
    ensures
        r@ == part_prefix(block as int, offset as int),
{
    let r = join_number(BLOCKS_ROOT, block * PARTS_PER_BLOCK + offset, "");
    assert(r@ == part_prefix(block as int, offset as int)) by {
        reveal_strlit("");
    }
    r
}

/// What the names of the results of a part of a block begin with.
pub fn part_name_of(block: usize, offset: usize) -> (r: String)
    requires
        block < 4,
        offset < PARTS_PER_BLOCK,
    ensures
        r@ == part_name(block as int, offset as int),
{
    join_number("main_blocks.", block * PARTS_PER_BLOCK + offset, "/")
}

/// No two parts of the blocks have the same number.
pub proof fn law_parts_apart(a: int, i: int, b: int, j: int)
    requires
        0 <= i < PARTS_PER_BLOCK,
        0 <= j < PARTS_PER_BLOCK,
        part_number(a, i) == part_number(b, j),
    ensures
        a == b,
        i == j,
{
}

/// No two matrices of the blocks have the same number.
pub proof fn law_matrices_apart(a: int, i: int, b: int, j: int)
    requires
        0 <= i < MATRICES_PER_BLOCK,
        0 <= j < MATRICES_PER_BLOCK,
        matrix_id(a, i) == matrix_id(b, j),
    ensures
        a == b,
        i == j,
{
}

// ---------------------------------------------------------------------------
// Time
// ---------------------------------------------------------------------------

/// The layer by which the time acts.
#[derive(Debug)]
pub struct TimeCondLayer {
    pub weight: usize,
    pub bias: usize,
}

/// The time, projected to the channels of the flow and added at every step.
pub open spec fn time_cond(block: int, x: Expr, time: Expr, mask: Expr) -> Expr {
    let shift = ap2(
        Op::AddBias,
        ap2(Op::MatMul, ap1(Op::SwapLast, time), matrix(matrix_id(block, 0), TIME_DIM, HIDDEN)),
        weight(part_prefix(block, 1), ".linear.linear.bias", Shape::D1(HIDDEN)),
    );
    ap2(Op::Mul, ap2(Op::Add, x, ap1(Op::SwapLast, shift)), mask)
}

impl TimeCondLayer {
    /// Whether the layer of a block is loaded.
    pub open spec fn loaded(&self, tape: &Tape, block: int) -> bool {
        &&& tape.holds(
            self.weight,
            matrix(matrix_id(block, 0), TIME_DIM, HIDDEN),
            Shape::D2(TIME_DIM, HIDDEN),
        )
        &&& tape.holds(
            self.bias,
            weight(part_prefix(block, 1), ".linear.linear.bias", Shape::D1(HIDDEN)),
            Shape::D1(HIDDEN),
        )
    }

    /// Loads the layer of a block.
    pub fn load(tape: &mut Tape, block: usize) -> (r: TimeCondLayer)
        requires
            old(tape).wf(),
            block < 4,
        ensures
            final(tape).wf(),
            final(tape).extends(old(tape)),
            final(tape).seen@ == old(tape).seen@,
            r.loaded(final(tape), block as int),
    {
        let matrix = take_matrix(
            tape,
            FIRST_MATRIX + block * MATRICES_PER_BLOCK,
            TIME_DIM,
            HIDDEN,
        );
        let at = part_prefix_of(block, 1);
        let bias = take_weight(tape, at.as_str(), ".linear.linear.bias", Shape::D1(HIDDEN));
        TimeCondLayer { weight: matrix, bias }
    }

    /// Applies the layer to `x`, of `[2, 512, t]`, with a time of `[2, 64, 1]`.
    pub(crate) fn forward(
        &self,
        tape: &mut Tape,
        x: usize,
        time: usize,
        mask: usize,
        t: usize,
        block: Ghost<int>,
    ) -> (r: usize)
        requires
            old(tape).wf(),
            self.loaded(old(tape), block@),
            old(tape).has(x, Shape::D3(ROWS, HIDDEN, t)),
            old(tape).has(time, Shape::D3(ROWS, TIME_DIM, 1)),
            old(tape).has(mask, Shape::D3(ROWS, 1, t)),
        ensures
            final(tape).wf(),
            final(tape).extends(old(tape)),
            final(tape).seen@ == old(tape).seen@,
            final(tape).holds(
                r,
                time_cond(
                    block@,
                    old(tape).value(x),
                    old(tape).value(time),
                    old(tape).value(mask),
                ),
                Shape::D3(ROWS, HIDDEN, t),
            ),
    {
        let h = tape.op1(Op::SwapLast, time);
        let h = tape.op2(Op::MatMul, h, self.weight);
        let h = tape.op2(Op::AddBias, h, self.bias);
        let h = tape.op1(Op::SwapLast, h);
        let h = tape.op2(Op::Add, x, h);
        tape.op2(Op::Mul, h, mask)
    }
}

// ---------------------------------------------------------------------------
// Text
// ---------------------------------------------------------------------------

/// The angles by which `n` positions are rotated: a position's share of the valid
/// steps times the angles of the channels.
pub open spec fn angles(mask: Expr, n: usize) -> Expr {
    ap2(
        Op::Mul,
        ap2(
            Op::OverValid,
            ap1(Op::Reshape(Shape::D3(1, n, 1)), Expr::Count(n)),
            mask,
        ),
        named(THETA, Shape::D3(1, 1, ROTARY_DIM)),
    )
}

/// A function of the angles, the same for all rows and heads.
pub open spec fn spread(x: Expr, n: usize) -> Expr {
    ap1(
        Op::Expand(Shape::D4(ROWS, TEXT_HEADS, n, ROTARY_DIM)),
        ap1(Op::Reshape(Shape::D4(1, 1, n, ROTARY_DIM)), x),
    )
}

/// The first half of the channels of `x` against the second half, rotated by the
/// angles of their positions.
pub open spec fn rotated(x: Expr, mask: Expr, n: usize) -> Expr {
    let sin = spread(ap1(Op::Sin, angles(mask, n)), n);
    let cos = spread(ap1(Op::Cos, angles(mask, n)), n);
    let even = ap1(Op::Narrow { dim: 3, start: 0, len: ROTARY_DIM }, x);
    let odd = ap1(Op::Narrow { dim: 3, start: ROTARY_DIM, len: ROTARY_DIM }, x);
    ap2(
        Op::Cat { dim: 3 },
        ap2(Op::Add, ap2(Op::Mul, even, cos), ap2(Op::Mul, ap1(Op::Neg, odd), sin)),
        ap2(Op::Add, ap2(Op::Mul, odd, cos), ap2(Op::Mul, even, sin)),
    )
}

/// Rotates `x`, of `[2, 8, n, 64]`.
pub fn rope_apply_norm(tape: &mut Tape, x: usize, theta: usize, mask: usize, n: usize) -> (r: usize)
    requires
        old(tape).wf(),
        old(tape).has(x, Shape::D4(ROWS, TEXT_HEADS, n, TEXT_HEAD_DIM)),
        old(tape).holds(
            theta,
            named(THETA, Shape::D3(1, 1, ROTARY_DIM)),
            Shape::D3(1, 1, ROTARY_DIM),
        ),
        old(tape).has(mask, Shape::D3(ROWS, 1, n)),
    ensures
        final(tape).wf(),
        final(tape).extends(old(tape)),
        final(tape).seen@ == old(tape).seen@,
        final(tape).holds(
            r,
            rotated(old(tape).value(x), old(tape).value(mask), n),
            Shape::D4(ROWS, TEXT_HEADS, n, TEXT_HEAD_DIM),
        ),
{
    let half: usize = ROTARY_DIM;
    assert(1 * n * 1 == n) by (nonlinear_arith);
    assert(1 * 1 * n * half == 1 * n * half) by (nonlinear_arith);
    let pos = tape.count(n);
    let pos = tape.op1(Op::Reshape(Shape::D3(1, n, 1)), pos);
    let pos = tape.op2(Op::OverValid, pos, mask);
    let angle = tape.op2(Op::Mul, pos, theta);
    let sin = tape.op1(Op::Sin, angle);
    let cos = tape.op1(Op::Cos, angle);
    let sin = tape.op1(Op::Reshape(Shape::D4(1, 1, n, half)), sin);
    let sin = tape.op1(Op::Expand(Shape::D4(ROWS, TEXT_HEADS, n, half)), sin);
    let cos = tape.op1(Op::Reshape(Shape::D4(1, 1, n, half)), cos);
    let cos = tape.op1(Op::Expand(Shape::D4(ROWS, TEXT_HEADS, n, half)), cos);
    let even = tape.op1(Op::Narrow { dim: 3, start: 0, len: half }, x);
    let odd = tape.op1(Op::Narrow { dim: 3, start: half, len: half }, x);
    let back = tape.op1(Op::Neg, odd);
    let a = tape.op2(Op::Mul, even, cos);
    let b = tape.op2(Op::Mul, back, sin);
    let first = tape.op2(Op::Add, a, b);
    let a = tape.op2(Op::Mul, odd, cos);
    let b = tape.op2(Op::Mul, even, sin);
    let second = tape.op2(Op::Add, a, b);
    tape.op2(Op::Cat { dim: 3 }, first, second)
}

/// The layer by which the text acts.
#[derive(Debug)]
pub struct TextCondLayer {
    pub w_q: Projection,
    pub w_k: Projection,
    pub w_v: Projection,
    pub out_fc: Projection,
    pub theta: usize,
    pub norm: Pair,
}

/// What a conditioning layer computes on the way to its output.
pub struct CondParts {
    pub q: Expr,
    pub k: Expr,
    pub v: Expr,
    pub out_fc: Expr,
    pub sum: Expr,
    pub norm: Expr,
    pub out: Expr,
}

/// The output of attention put back into the flow: masked, added, normalized and
/// masked again.
pub open spec fn put_back(prefix: Seq<char>, x: Expr, out_fc: Expr, mask: Expr) -> (
    Expr,
    Expr,
    Expr,
) {
    let sum = ap2(Op::Add, x, ap2(Op::Mul, ap1(Op::SwapLast, out_fc), mask));
    let norm = channel_norm(prefix + ".norm.norm"@, HIDDEN, sum);
    (sum, norm, ap2(Op::Mul, ap1(Op::SwapLast, norm), mask))
}

/// Which of the `t` steps of the flow may attend to which of the `s` steps of the
/// text: valid ones to valid ones.
pub open spec fn text_bias(mask: Expr, text_mask: Expr, t: usize, s: usize) -> Expr {
    let pairs = ap2(
        Op::MatMul,
        ap1(Op::Reshape(Shape::D3(ROWS, t, 1)), mask),
        ap1(Op::Reshape(Shape::D3(ROWS, 1, s)), text_mask),
    );
    ap1(
        Op::MaskBias,
        ap1(
            Op::Expand(Shape::D4(ROWS, TEXT_HEADS, t, s)),
            ap1(Op::Reshape(Shape::D4(ROWS, 1, t, s)), pairs),
        ),
    )
}

/// One of the projections by which the text acts.
pub open spec fn text_projected(
    block: int,
    offset: int,
    name: &'static str,
    inp: usize,
    x: Expr,
) -> Expr {
    projected(matrix_id(block, offset), part_prefix(block, 3), name, inp, HIDDEN, x)
}

/// What the layer by which the text acts computes.
pub open spec fn text_cond(
    block: int,
    x: Expr,
    text: Expr,
    mask: Expr,
    text_mask: Expr,
    t: usize,
    s: usize,
) -> CondParts {
    let text = ap1(Op::SwapLast, text);
    let q = text_projected(block, 6, ".attn.W_query.linear.bias", HIDDEN, ap1(Op::SwapLast, x));
    let k = text_projected(block, 7, ".attn.W_key.linear.bias", TEXT_DIM, text);
    let v = text_projected(block, 8, ".attn.W_value.linear.bias", TEXT_DIM, text);
    let asked = rotated(dealt(q, ROWS, t, TEXT_HEADS, TEXT_HEAD_DIM), mask, t);
    let keys = rotated(dealt(k, ROWS, s, TEXT_HEADS, TEXT_HEAD_DIM), text_mask, s);
    let scores = ap1(
        Op::InvSqrt(TEXT_DIM),
        ap2(Op::MatMul, asked, ap1(Op::SwapLast, keys)),
    );
    let attn = ap1(Op::Softmax, ap2(Op::Add, scores, text_bias(mask, text_mask, t, s)));
    let heard = ap2(Op::MatMul, attn, dealt(v, ROWS, s, TEXT_HEADS, TEXT_HEAD_DIM));
    let out_fc = text_projected(
        block,
        15,
        ".attn.out_fc.linear.bias",
        HIDDEN,
        gathered(heard, ROWS, t, HIDDEN),
    );
    let (sum, norm, out) = put_back(part_prefix(block, 3), x, out_fc, mask);
    CondParts { q, k, v, out_fc, sum, norm, out }
}

/// The names of what the layer by which the text acts computes.
pub open spec fn text_cond_seen(block: int, p: CondParts) -> Seq<(Seq<char>, Expr)> {
    let at = part_name(block, 3);
    seq![
        (at + "text_cond/W_query/Add_output_0"@, p.q),
        (at + "text_cond/W_key/Add_output_0"@, p.k),
        (at + "text_cond/W_value/Add_output_0"@, p.v),
        (at + "text_cond/Add_output_0"@, p.sum),
        (at + "text_cond/out_fc/Add_output_0"@, p.out_fc),
        (at + "text_cond/norm/output"@, p.norm),
        (at + "Mul_1_output_0"@, p.out),
    ]
}

/// Puts the output of attention, of `[2, t, 512]`, back into the flow.
fn return_to_flow(
    tape: &mut Tape,
    norm: Pair,
    x: usize,
    out_fc: usize,
    mask: usize,
    t: usize,
    prefix: Ghost<Seq<char>>,
) -> (r: (usize, usize, usize))
    requires
        old(tape).wf(),
        norm.loaded(
            old(tape),
            prefix@ + ".norm.norm"@,
            Shape::D1(HIDDEN),
            Shape::D1(HIDDEN),
        ),
        old(tape).has(x, Shape::D3(ROWS, HIDDEN, t)),
        old(tape).has(out_fc, Shape::D3(ROWS, t, HIDDEN)),
        old(tape).has(mask, Shape::D3(ROWS, 1, t)),
    ensures
        final(tape).wf(),
        final(tape).extends(old(tape)),
        final(tape).seen@ == old(tape).seen@,
        ({
            let (sum, norm, out) = put_back(
                prefix@,
                old(tape).value(x),
                old(tape).value(out_fc),
                old(tape).value(mask),
            );
            &&& final(tape).holds(r.0, sum, Shape::D3(ROWS, HIDDEN, t))
            &&& final(tape).holds(r.1, norm, Shape::D3(ROWS, t, HIDDEN))
            &&& final(tape).holds(r.2, out, Shape::D3(ROWS, HIDDEN, t))
        }),
{
    let h = tape.op1(Op::SwapLast, out_fc);
    let h = tape.op2(Op::Mul, h, mask);
    let sum = tape.op2(Op::Add, x, h);
    let normed = normalize(
        tape,
        norm,
        sum,
        ROWS,
        HIDDEN,
        t,
        Ghost(prefix@ + ".norm.norm"@),
    );
    let h = tape.op1(Op::SwapLast, normed);
    let out = tape.op2(Op::Mul, h, mask);
    (sum, normed, out)
}

/// Makes the bias that keeps steps from attending to masked ones.
fn make_text_bias(tape: &mut Tape, mask: usize, text_mask: usize, t: usize, s: usize) -> (r: usize)
    requires
        old(tape).wf(),
        old(tape).has(mask, Shape::D3(ROWS, 1, t)),
        old(tape).has(text_mask, Shape::D3(ROWS, 1, s)),
    ensures
        final(tape).wf(),
        final(tape).extends(old(tape)),
        final(tape).seen@ == old(tape).seen@,
        final(tape).holds(
            r,
            text_bias(old(tape).value(mask), old(tape).value(text_mask), t, s),
            Shape::D4(ROWS, TEXT_HEADS, t, s),
        ),
{
    assert(2 * 1 * t == 2 * t * 1) by (nonlinear_arith);
    assert(2 * 1 * t * s == 2 * t * s) by (nonlinear_arith);
    let q = tape.op1(Op::Reshape(Shape::D3(ROWS, t, 1)), mask);
    let k = tape.op1(Op::Reshape(Shape::D3(ROWS, 1, s)), text_mask);
    let h = tape.op2(Op::MatMul, q, k);
    let h = tape.op1(Op::Reshape(Shape::D4(ROWS, 1, t, s)), h);
    let h = tape.op1(Op::Expand(Shape::D4(ROWS, TEXT_HEADS, t, s)), h);
    tape.op1(Op::MaskBias, h)
}

impl TextCondLayer {
    /// Whether the layer of a block is loaded.
    pub open spec fn loaded(&self, tape: &Tape, block: int) -> bool {
        let at = part_prefix(block, 3);
        let v = Shape::D1(HIDDEN);
        &&& self.w_q.loaded(
            tape,
            matrix_id(block, 6),
            at,
            ".attn.W_query.linear.bias",
            HIDDEN,
            HIDDEN,
        )
        &&& self.w_k.loaded(
            tape,
            matrix_id(block, 7),
            at,
            ".attn.W_key.linear.bias",
            TEXT_DIM,
            HIDDEN,
        )
        &&& self.w_v.loaded(
            tape,
            matrix_id(block, 8),
            at,
            ".attn.W_value.linear.bias",
            TEXT_DIM,
            HIDDEN,
        )
        &&& self.out_fc.loaded(
            tape,
            matrix_id(block, 15),
            at,
            ".attn.out_fc.linear.bias",
            HIDDEN,
            HIDDEN,
        )
        &&& tape.holds(
            self.theta,
            named(THETA, Shape::D3(1, 1, ROTARY_DIM)),
            Shape::D3(1, 1, ROTARY_DIM),
        )
        &&& self.norm.loaded(tape, at + ".norm.norm"@, v, v)
    }

    /// Loads the layer of a block. The angles of the rotations are shared by all
    /// blocks.
    pub fn load(tape: &mut Tape, block: usize, theta: usize) -> (r: TextCondLayer)
        requires
            old(tape).wf(),
            block < 4,
            old(tape).holds(
                theta,
                named(THETA, Shape::D3(1, 1, ROTARY_DIM)),
                Shape::D3(1, 1, ROTARY_DIM),
            ),
        ensures
            final(tape).wf(),
            final(tape).extends(old(tape)),
            final(tape).seen@ == old(tape).seen@,
            r.loaded(final(tape), block as int),
    {
        let at = part_prefix_of(block, 3);
        let at = at.as_str();
        let id: usize = FIRST_MATRIX + block * MATRICES_PER_BLOCK;
        let w_q = Projection::load(tape, id + 6, at, ".attn.W_query.linear.bias", HIDDEN, HIDDEN);
        let w_k = Projection::load(tape, id + 7, at, ".attn.W_key.linear.bias", TEXT_DIM, HIDDEN);
        let w_v = Projection::load(tape, id + 8, at, ".attn.W_value.linear.bias", TEXT_DIM, HIDDEN);
        let out_fc = Projection::load(
            tape,
            id + 15,
            at,
            ".attn.out_fc.linear.bias",
            HIDDEN,
            HIDDEN,
        );
        let name = join(at, ".norm.norm");
        let norm = Pair::load(tape, name.as_str(), Shape::D1(HIDDEN), Shape::D1(HIDDEN));
        TextCondLayer { w_q, w_k, w_v, out_fc, theta, norm }
    }

    /// Attends from the flow, of `[2, 512, t]`, to the text, of `[2, 256, s]`, and
    /// names what it computes.
    #[verifier::rlimit(60)]
    pub fn forward_hooked(
        &self,
        tape: &mut Tape,
        x: usize,
        text: usize,
        mask: usize,
        text_mask: usize,
        t: usize,
        s: usize,
        block: usize,
    ) -> (r: usize)
        requires
            old(tape).wf(),
            block < 4,
            self.loaded(old(tape), block as int),
            old(tape).has(x, Shape::D3(ROWS, HIDDEN, t)),
            old(tape).has(text, Shape::D3(ROWS, TEXT_DIM, s)),
            old(tape).has(mask, Shape::D3(ROWS, 1, t)),
            old(tape).has(text_mask, Shape::D3(ROWS, 1, s)),
        ensures
            final(tape).wf(),
            final(tape).extends(old(tape)),
            final(tape).seen@ == old(tape).seen@ + text_cond_seen(
                block as int,
                text_cond(
                    block as int,
                    old(tape).value(x),
                    old(tape).value(text),
                    old(tape).value(mask),
                    old(tape).value(text_mask),
                    t,
                    s,
                ),
            ),
            final(tape).holds(
                r,
                text_cond(
                    block as int,
                    old(tape).value(x),
                    old(tape).value(text),
                    old(tape).value(mask),
                    old(tape).value(text_mask),
                    t,
                    s,
                ).out,
                Shape::D3(ROWS, HIDDEN, t),
            ),
    {
        let ghost s0 = tape.seen@;
        let ghost n = block as int;
        let ghost p = text_cond(
            n,
            tape.value(x),
            tape.value(text),
            tape.value(mask),
            tape.value(text_mask),
            t,
            s,
        );
        let ghost pre = part_prefix(n, 3);
        let at = part_name_of(block, 3);
        let at = at.as_str();
        let x_t = tape.op1(Op::SwapLast, x);
        let text_t = tape.op1(Op::SwapLast, text);
        let q = self.w_q.forward(
            tape,
            x_t,
            ROWS,
            t,
            HIDDEN,
            HIDDEN,
            Ghost(matrix_id(n, 6)),
            Ghost(pre),
            Ghost(".attn.W_query.linear.bias"),
        );
        let k = self.w_k.forward(
            tape,
            text_t,
            ROWS,
            s,
            TEXT_DIM,
            HIDDEN,
            Ghost(matrix_id(n, 7)),
            Ghost(pre),
            Ghost(".attn.W_key.linear.bias"),
        );
        let v = self.w_v.forward(
            tape,
            text_t,
            ROWS,
            s,
            TEXT_DIM,
            HIDDEN,
            Ghost(matrix_id(n, 8)),
            Ghost(pre),
            Ghost(".attn.W_value.linear.bias"),
        );
        tape.record(join(at, "text_cond/W_query/Add_output_0"), q);
        tape.record(join(at, "text_cond/W_key/Add_output_0"), k);
        tape.record(join(at, "text_cond/W_value/Add_output_0"), v);
        let ghost s1 = tape.seen@;
        let qh = deal(tape, q, ROWS, t, TEXT_HEADS, TEXT_HEAD_DIM, HIDDEN);
        let kh = deal(tape, k, ROWS, s, TEXT_HEADS, TEXT_HEAD_DIM, HIDDEN);
        let vh = deal(tape, v, ROWS, s, TEXT_HEADS, TEXT_HEAD_DIM, HIDDEN);
        let asked = rope_apply_norm(tape, qh, self.theta, mask, t);
        let keys = rope_apply_norm(tape, kh, self.theta, text_mask, s);
        let h = tape.op1(Op::SwapLast, keys);
        let h = tape.op2(Op::MatMul, asked, h);
        let scores = tape.op1(Op::InvSqrt(TEXT_DIM), h);
        let bias = make_text_bias(tape, mask, text_mask, t, s);
        let h = tape.op2(Op::Add, scores, bias);
        let attn = tape.op1(Op::Softmax, h);
        let h = tape.op2(Op::MatMul, attn, vh);
        let h = gather_heads(tape, h, ROWS, t, TEXT_HEADS, TEXT_HEAD_DIM, HIDDEN);
        let out_fc = self.out_fc.forward(
            tape,
            h,
            ROWS,
            t,
            HIDDEN,
            HIDDEN,
            Ghost(matrix_id(n, 15)),
            Ghost(pre),
            Ghost(".attn.out_fc.linear.bias"),
        );
        let (sum, norm, out) = return_to_flow(
            tape,
            self.norm,
            x,
            out_fc,
            mask,
            t,
            Ghost(pre),
        );
        tape.record(join(at, "text_cond/Add_output_0"), sum);
        tape.record(join(at, "text_cond/out_fc/Add_output_0"), out_fc);
        tape.record(join(at, "text_cond/norm/output"), norm);
        tape.record(join(at, "Mul_1_output_0"), out);
        proof {
            let l = text_cond_seen(n, p);
            let s2 = tape.seen@;
            assert(s1 == s0.push(l[0]).push(l[1]).push(l[2]));
            assert(s2 == s1.push(l[3]).push(l[4]).push(l[5]).push(l[6]));
            assert(s2 == s0 + l);
        }
        out
    }
}

// ---------------------------------------------------------------------------
// Style
// ---------------------------------------------------------------------------

/// The layer by which the style acts.
#[derive(Debug)]
pub struct StyleCondLayer {
    pub w_q: Projection,
    pub w_k: Projection,
    pub w_v: Projection,
    pub out_fc: Projection,
    pub norm: Pair,
}

/// One of the projections by which the style acts.
pub open spec fn style_projected(
    block: int,
    offset: int,
    name: &'static str,
    inp: usize,
    out: usize,
    x: Expr,
) -> Expr {
    projected(matrix_id(block, offset), part_prefix(block, 5), name, inp, out, x)
}

/// What the layer by which the style acts computes.
pub open spec fn style_cond(
    block: int,
    x: Expr,
    keys: Expr,
    values: Expr,
    mask: Expr,
    t: usize,
) -> CondParts {
    let q = style_projected(
        block,
        21,
        ".attention.W_query.linear.bias",
        HIDDEN,
        STYLE_DIM,
        ap1(Op::SwapLast, x),
    );
    let k = style_projected(
        block,
        22,
        ".attention.W_key.linear.bias",
        STYLE_DIM,
        STYLE_DIM,
        keys,
    );
    let v = style_projected(
        block,
        23,
        ".attention.W_value.linear.bias",
        STYLE_DIM,
        STYLE_DIM,
        values,
    );
    let out_fc = style_projected(
        block,
        24,
        ".attention.out_fc.linear.bias",
        STYLE_DIM,
        HIDDEN,
        style_attention(q, k, v, ROWS, t, N_STYLE, STYLE_HEAD_DIM, STYLE_DIM),
    );
    let (sum, norm, out) = put_back(part_prefix(block, 5), x, out_fc, mask);
    CondParts { q, k, v, out_fc, sum, norm, out }
}

/// The names of what the layer by which the style acts computes.
pub open spec fn style_cond_seen(block: int, p: CondParts) -> Seq<(Seq<char>, Expr)> {
    let at = part_name(block, 5);
    seq![
        (at + "style_cond/W_query/Add_output_0"@, p.q),
        (at + "style_cond/W_key/Add_output_0"@, p.k),
        (at + "style_cond/W_value/Add_output_0"@, p.v),
        (at + "style_cond/out_fc/Add_output_0"@, p.out_fc),
        (at + "style_cond/Add_output_0"@, p.sum),
        (at + "style_cond/norm/output"@, p.norm),
        (at + "Mul_1_output_0"@, p.out),
    ]
}

impl StyleCondLayer {
    /// Whether the layer of a block is loaded.
    pub open spec fn loaded(&self, tape: &Tape, block: int) -> bool {
        let at = part_prefix(block, 5);
        let v = Shape::D1(HIDDEN);
        &&& self.w_q.loaded(
            tape,
            matrix_id(block, 21),
            at,
            ".attention.W_query.linear.bias",
            HIDDEN,
            STYLE_DIM,
        )
        &&& self.w_k.loaded(
            tape,
            matrix_id(block, 22),
            at,
            ".attention.W_key.linear.bias",
            STYLE_DIM,
            STYLE_DIM,
        )
        &&& self.w_v.loaded(
            tape,
            matrix_id(block, 23),
            at,
            ".attention.W_value.linear.bias",
            STYLE_DIM,
            STYLE_DIM,
        )
        &&& self.out_fc.loaded(
            tape,
            matrix_id(block, 24),
            at,
            ".attention.out_fc.linear.bias",
            STYLE_DIM,
            HIDDEN,
        )
        &&& self.norm.loaded(tape, at + ".norm.norm"@, v, v)
    }

    /// Loads the layer of a block.
    pub fn load(tape: &mut Tape, block: usize) -> (r: StyleCondLayer)
        requires
            old(tape).wf(),
            block < 4,
        ensures
            final(tape).wf(),
            final(tape).extends(old(tape)),
            final(tape).seen@ == old(tape).seen@,
            r.loaded(final(tape), block as int),
    {
        let at = part_prefix_of(block, 5);
        let at = at.as_str();
        let id: usize = FIRST_MATRIX + block * MATRICES_PER_BLOCK;
        let w_q = Projection::load(
            tape,
            id + 21,
            at,
            ".attention.W_query.linear.bias",
            HIDDEN,
            STYLE_DIM,
        );
        let w_k = Projection::load(
            tape,
            id + 22,
            at,
            ".attention.W_key.linear.bias",
            STYLE_DIM,
            STYLE_DIM,
        );
        let w_v = Projection::load(
            tape,
            id + 23,
            at,
            ".attention.W_value.linear.bias",
            STYLE_DIM,
            STYLE_DIM,
        );
        let out_fc = Projection::load(
            tape,
            id + 24,
            at,
            ".attention.out_fc.linear.bias",
            STYLE_DIM,
            HIDDEN,
        );
        let name = join(at, ".norm.norm");
        let norm = Pair::load(tape, name.as_str(), Shape::D1(HIDDEN), Shape::D1(HIDDEN));
        StyleCondLayer { w_q, w_k, w_v, out_fc, norm }
    }

    /// Attends from the flow, of `[2, 512, t]`, to the style, with keys and values of
    /// `[2, 50, 256]`, and names what it computes.
    #[verifier::rlimit(60)]
    pub fn forward_hooked(
        &self,
        tape: &mut Tape,
        x: usize,
        keys: usize,
        values: usize,
        mask: usize,
        t: usize,
        block: usize,
    ) -> (r: usize)
        requires
            old(tape).wf(),
            block < 4,
            self.loaded(old(tape), block as int),
            old(tape).has(x, Shape::D3(ROWS, HIDDEN, t)),
            old(tape).has(keys, Shape::D3(ROWS, N_STYLE, STYLE_DIM)),
            old(tape).has(values, Shape::D3(ROWS, N_STYLE, STYLE_DIM)),
            old(tape).has(mask, Shape::D3(ROWS, 1, t)),
        ensures
            final(tape).wf(),
            final(tape).extends(old(tape)),
            final(tape).seen@ == old(tape).seen@ + style_cond_seen(
                block as int,
                style_cond(
                    block as int,
                    old(tape).value(x),
                    old(tape).value(keys),
                    old(tape).value(values),
                    old(tape).value(mask),
                    t,
                ),
            ),
            final(tape).holds(
                r,
                style_cond(
                    block as int,
                    old(tape).value(x),
                    old(tape).value(keys),
                    old(tape).value(values),
                    old(tape).value(mask),
                    t,
                ).out,
                Shape::D3(ROWS, HIDDEN, t),
            ),
    {
        let ghost s0 = tape.seen@;
        let ghost n = block as int;
        let ghost p = style_cond(
            n,
            tape.value(x),
            tape.value(keys),
            tape.value(values),
            tape.value(mask),
            t,
        );
        let ghost pre = part_prefix(n, 5);
        let at = part_name_of(block, 5);
        let at = at.as_str();
        let x_t = tape.op1(Op::SwapLast, x);
        let q = self.w_q.forward(
            tape,
            x_t,
            ROWS,
            t,
            HIDDEN,
            STYLE_DIM,
            Ghost(matrix_id(n, 21)),
            Ghost(pre),
            Ghost(".attention.W_query.linear.bias"),
        );
        let k = self.w_k.forward(
            tape,
            keys,
            ROWS,
            N_STYLE,
            STYLE_DIM,
            STYLE_DIM,
            Ghost(matrix_id(n, 22)),
            Ghost(pre),
            Ghost(".attention.W_key.linear.bias"),
        );
        let v = self.w_v.forward(
            tape,
            values,
            ROWS,
            N_STYLE,
            STYLE_DIM,
            STYLE_DIM,
            Ghost(matrix_id(n, 23)),
            Ghost(pre),
            Ghost(".attention.W_value.linear.bias"),
        );
        tape.record(join(at, "style_cond/W_query/Add_output_0"), q);
        tape.record(join(at, "style_cond/W_key/Add_output_0"), k);
        tape.record(join(at, "style_cond/W_value/Add_output_0"), v);
        let ghost s1 = tape.seen@;
        let heard = attend_style(tape, q, k, v, ROWS, t, N_STYLE, STYLE_HEAD_DIM, STYLE_DIM);
        let out_fc = self.out_fc.forward(
            tape,
            heard,
            ROWS,
            t,
            STYLE_DIM,
            HIDDEN,
            Ghost(matrix_id(n, 24)),
            Ghost(pre),
            Ghost(".attention.out_fc.linear.bias"),
        );
        tape.record(join(at, "style_cond/out_fc/Add_output_0"), out_fc);
        let (sum, norm, out) = return_to_flow(
            tape,
            self.norm,
            x,
            out_fc,
            mask,
            t,
            Ghost(pre),
        );
        tape.record(join(at, "style_cond/Add_output_0"), sum);
        tape.record(join(at, "style_cond/norm/output"), norm);
        tape.record(join(at, "Mul_1_output_0"), out);
        proof {
            let l = style_cond_seen(n, p);
            let s2 = tape.seen@;
            assert(s1 == s0.push(l[0]).push(l[1]).push(l[2]));
            assert(s2 == s1.push(l[3]).push(l[4]).push(l[5]).push(l[6]));
            assert(s2 == s0 + l);
        }
        out
    }
}

} // verus!
