//! The layers that the networks share.

use vstd::prelude::*;

use crate::model::candle::graph::{ap1, ap2, ap3, conv_len, Expr, Op, Shape, Tape};
use crate::strings::{decimal, join, join_number, owned};

verus! {

/// A weight of a layer.
pub open spec fn weight(prefix: Seq<char>, name: &'static str, shape: Shape) -> Expr {
    Expr::Weight(prefix + name@, shape)
}

/// Takes a weight of a layer.
pub fn take_weight(tape: &mut Tape, prefix: &str, name: &'static str, shape: Shape) -> (r: usize)
    requires
        old(tape).wf(),
    ensures
        final(tape).wf(),
        final(tape).grown(old(tape), r, weight(prefix@, name, shape), shape),
{
    let full = join(prefix, name);
    tape.weight(full, shape)
}

/// A weight with a name of its own.
pub open spec fn named(name: &'static str, shape: Shape) -> Expr {
    Expr::Weight(name@, shape)
}

/// Takes a weight with a name of its own.
pub fn take_named(tape: &mut Tape, name: &'static str, shape: Shape) -> (r: usize)
    requires
        old(tape).wf(),
    ensures
        final(tape).wf(),
        final(tape).grown(old(tape), r, named(name, shape), shape),
{
    tape.weight(owned(name), shape)
}

/// The weights of a layer that has a matrix, or a scale, and a bias.
#[derive(Debug, Clone, Copy, PartialEq, Eq, Structural)]
pub struct Pair {
    pub weight: usize,
    pub bias: usize,
}

impl Pair {
    /// Whether the weights under `prefix` are loaded, in the shapes given.
    pub open spec fn loaded(self, tape: &Tape, prefix: Seq<char>, ws: Shape, bs: Shape) -> bool {
        &&& tape.holds(self.weight, weight(prefix, ".weight", ws), ws)
        &&& tape.holds(self.bias, weight(prefix, ".bias", bs), bs)
    }

    /// Loads the weights under `prefix`.
    pub fn load(tape: &mut Tape, prefix: &str, ws: Shape, bs: Shape) -> (r: Pair)
        requires
            old(tape).wf(),
        ensures
            final(tape).wf(),
            final(tape).extends(old(tape)),
            final(tape).seen@ == old(tape).seen@,
            r.loaded(final(tape), prefix@, ws, bs),
    {
        let weight = take_weight(tape, prefix, ".weight", ws);
        let bias = take_weight(tape, prefix, ".bias", bs);
        Pair { weight, bias }
    }
}

/// A layer normalization over the channels of `[batch, channels, time]`, in which
/// the result keeps the channels last.
pub open spec fn channel_norm(prefix: Seq<char>, n: usize, x: Expr) -> Expr {
    ap3(
        Op::LayerNorm,
        ap1(Op::SwapLast, x),
        weight(prefix, ".weight", Shape::D1(n)),
        weight(prefix, ".bias", Shape::D1(n)),
    )
}

/// A convolution of kernel length one.
pub open spec fn pointwise(prefix: Seq<char>, out: usize, inp: usize, x: Expr) -> Expr {
    ap3(
        Op::Conv { dilation: 1, groups: 1 },
        x,
        weight(prefix, ".weight", Shape::D3(out, inp, 1)),
        weight(prefix, ".bias", Shape::D1(out)),
    )
}

/// The rows of a table at the given ids, of `[b, t]`, as `[b, n, t]`, under a mask.
pub open spec fn embedded(table: Expr, ids: Expr, mask: Expr, b: usize, t: usize, n: usize) -> Expr {
    let rows = ap2(Op::Embed, table, ap1(Op::Reshape(Shape::D1((b * t) as usize)), ids));
    let channels = ap1(Op::SwapLast, ap1(Op::Reshape(Shape::D3(b, t, n)), rows));
    ap2(Op::Mul, channels, mask)
}

/// Looks ids up in a table of `vocab` rows of `n`.
pub fn embed(
    tape: &mut Tape,
    table: usize,
    ids: usize,
    mask: usize,
    vocab: usize,
    b: usize,
    t: usize,
    n: usize,
) -> (r: usize)
    requires
        old(tape).wf(),
        old(tape).has(table, Shape::D2(vocab, n)),
        old(tape).has(ids, Shape::D2(b, t)),
        old(tape).has(mask, Shape::D3(b, 1, t)),
        b * t <= usize::MAX,
    ensures
        final(tape).wf(),
        final(tape).extends(old(tape)),
        final(tape).seen@ == old(tape).seen@,
        final(tape).holds(
            r,
            embedded(
                old(tape).value(table),
                old(tape).value(ids),
                old(tape).value(mask),
                b,
                t,
                n,
            ),
            Shape::D3(b, n, t),
        ),
{
    let h = tape.op1(Op::Reshape(Shape::D1(b * t)), ids);
    let h = tape.op2(Op::Embed, table, h);
    let h = tape.op1(Op::Reshape(Shape::D3(b, t, n)), h);
    let h = tape.op1(Op::SwapLast, h);
    tape.op2(Op::Mul, h, mask)
}

// ---------------------------------------------------------------------------
// ConvNeXt
// ---------------------------------------------------------------------------

/// The sizes of a ConvNeXt block, and how it pads.
#[derive(Debug, Clone, Copy)]
pub struct ConvNextSpec {
    /// Channels of the input and the output.
    pub channels: usize,
    /// Channels between the two pointwise convolutions.
    pub inner: usize,
    /// Length of the depthwise kernel.
    pub kernel: usize,
    /// Where the depthwise weights stand.
    pub dwconv: &'static str,
    /// Whether the padding is all on the left.
    pub causal: bool,
}

/// A ConvNeXt block, with its sizes and the name that its weights stand under.
#[derive(Debug)]
pub struct ConvNextBlock {
    pub sizes: ConvNextSpec,
    pub prefix: String,
    pub dwconv: Pair,
    pub norm: Pair,
    pub pwconv1: Pair,
    pub pwconv2: Pair,
    pub gamma: usize,
    pub dilation: usize,
}

/// What a ConvNeXt block computes on the way to its output.
pub struct ConvNextParts {
    pub dwconv: Expr,
    pub norm: Expr,
    pub pwconv1: Expr,
    pub pwconv2: Expr,
    pub sum: Expr,
    pub out: Expr,
}

/// The results of a ConvNeXt block in a program.
#[derive(Debug, Clone, Copy)]
pub struct ConvNextRegs {
    pub dwconv: usize,
    pub norm: usize,
    pub pwconv1: usize,
    pub pwconv2: usize,
    pub sum: usize,
    pub out: usize,
}

/// Steps that a kernel reaches beyond the one it stands at.
pub open spec fn reach(kernel: int, dilation: int) -> int {
    dilation * (kernel - 1)
}

/// Steps of padding on the left.
pub open spec fn pad_left(causal: bool, total: int) -> int {
    if causal {
        total
    } else {
        total / 2
    }
}

/// A kernel at step `t` reads from the steps that the padding covers: tap `k` reads no
/// further back than the padding on the left, and no further ahead than the padding on
/// the right. Where the padding is all on the left, it reads nothing ahead.
pub proof fn law_kernel_window(causal: bool, kernel: int, dilation: int, t: int, k: int)
    requires
        dilation > 0,
        0 <= k < kernel,
    ensures
        ({
            let total = reach(kernel, dilation);
            let left = pad_left(causal, total);
            let at = t + dilation * k - left;
            &&& t - left <= at <= t + (total - left)
            &&& causal ==> at <= t
        }),
{
    assert(0 <= dilation * k <= dilation * (kernel - 1)) by (nonlinear_arith)
        requires
            dilation > 0,
            0 <= k < kernel,
    ;
}

/// A value under a mask, if there is one.
pub open spec fn masked(x: Expr, mask: Option<Expr>) -> Expr {
    match mask {
        Some(m) => ap2(Op::Mul, x, m),
        None => x,
    }
}

/// Puts a value under a mask, if there is one.
pub fn mask_with(tape: &mut Tape, x: usize, mask: Option<usize>, b: usize, c: usize, t: usize) -> (r:
    usize)
    requires
        old(tape).wf(),
        old(tape).has(x, Shape::D3(b, c, t)),
        mask matches Some(m) ==> old(tape).has(m, Shape::D3(b, 1, t)),
    ensures
        final(tape).wf(),
        final(tape).extends(old(tape)),
        final(tape).seen@ == old(tape).seen@,
        final(tape).holds(
            r,
            masked(old(tape).value(x), old(tape).maybe(mask)),
            Shape::D3(b, c, t),
        ),
{
    match mask {
        Some(m) => tape.op2(Op::Mul, x, m),
        None => x,
    }
}

impl ConvNextSpec {
    /// Whether the sizes make sense.
    pub open spec fn wf(self) -> bool {
        self.channels > 0 && self.inner > 0 && self.kernel > 0
    }

    /// What the block under `prefix` computes from `x`.
    pub open spec fn parts(
        self,
        prefix: Seq<char>,
        dilation: usize,
        x: Expr,
        mask: Option<Expr>,
    ) -> ConvNextParts {
        let c = self.channels;
        let total = reach(self.kernel as int, dilation as int);
        let left = pad_left(self.causal, total);
        let pad = Op::PadEdge { left: left as usize, right: (total - left) as usize };
        let dwconv = ap3(
            Op::Conv { dilation, groups: c },
            ap1(pad, x),
            weight(prefix + self.dwconv@, ".weight", Shape::D3(c, 1, self.kernel)),
            weight(prefix + self.dwconv@, ".bias", Shape::D1(c)),
        );
        let norm = channel_norm(prefix + ".norm.norm"@, c, masked(dwconv, mask));
        let pwconv1 = pointwise(prefix + ".pwconv1"@, self.inner, c, ap1(Op::SwapLast, norm));
        let pwconv2 = pointwise(prefix + ".pwconv2"@, c, self.inner, ap1(Op::Gelu, pwconv1));
        let gamma = weight(prefix, ".gamma", Shape::D3(1, c, 1));
        let sum = ap2(Op::Add, x, ap2(Op::Mul, pwconv2, gamma));
        ConvNextParts { dwconv, norm, pwconv1, pwconv2, sum, out: masked(sum, mask) }
    }
}

impl ConvNextBlock {
    /// Whether the block is loaded.
    pub open spec fn loaded(&self, tape: &Tape) -> bool {
        let p = self.sizes;
        let prefix = self.prefix@;
        let c = p.channels;
        &&& p.wf()
        &&& self.dilation > 0
        &&& self.dwconv.loaded(
            tape,
            prefix + p.dwconv@,
            Shape::D3(c, 1, p.kernel),
            Shape::D1(c),
        )
        &&& self.norm.loaded(tape, prefix + ".norm.norm"@, Shape::D1(c), Shape::D1(c))
        &&& self.pwconv1.loaded(
            tape,
            prefix + ".pwconv1"@,
            Shape::D3(p.inner, c, 1),
            Shape::D1(p.inner),
        )
        &&& self.pwconv2.loaded(
            tape,
            prefix + ".pwconv2"@,
            Shape::D3(c, p.inner, 1),
            Shape::D1(c),
        )
        &&& tape.holds(self.gamma, weight(prefix, ".gamma", Shape::D3(1, c, 1)), Shape::D3(1, c, 1))
    }

    /// What the block computes from `x`.
    pub open spec fn parts(&self, x: Expr, mask: Option<Expr>) -> ConvNextParts {
        self.sizes.parts(self.prefix@, self.dilation, x, mask)
    }

    /// Loads the block from under `prefix`.
    pub fn load(tape: &mut Tape, p: ConvNextSpec, prefix: String, dilation: usize) -> (r:
        ConvNextBlock)
        requires
            old(tape).wf(),
            p.wf(),
            dilation > 0,
        ensures
            final(tape).wf(),
            final(tape).extends(old(tape)),
            final(tape).seen@ == old(tape).seen@,
            r.loaded(final(tape)),
            r.sizes == p,
            r.prefix == prefix,
            r.dilation == dilation,
    {
        let c: usize = p.channels;
        let at = join(prefix.as_str(), p.dwconv);
        let dwconv = Pair::load(tape, at.as_str(), Shape::D3(c, 1, p.kernel), Shape::D1(c));
        let at = join(prefix.as_str(), ".norm.norm");
        let norm = Pair::load(tape, at.as_str(), Shape::D1(c), Shape::D1(c));
        let at = join(prefix.as_str(), ".pwconv1");
        let pwconv1 = Pair::load(
            tape,
            at.as_str(),
            Shape::D3(p.inner, c, 1),
            Shape::D1(p.inner),
        );
        let at = join(prefix.as_str(), ".pwconv2");
        let pwconv2 = Pair::load(tape, at.as_str(), Shape::D3(c, p.inner, 1), Shape::D1(c));
        let gamma = take_weight(tape, prefix.as_str(), ".gamma", Shape::D3(1, c, 1));
        ConvNextBlock { sizes: p, prefix, dwconv, norm, pwconv1, pwconv2, gamma, dilation }
    }

    /// Applies the block to `x`, of `[batch, channels, time]`, under a mask if there
    /// is one.
    pub fn forward(
        &self,
        tape: &mut Tape,
        x: usize,
        mask: Option<usize>,
        b: usize,
        t: usize,
    ) -> (r: ConvNextRegs)
        requires
            old(tape).wf(),
            self.loaded(old(tape)),
            old(tape).has(x, Shape::D3(b, self.sizes.channels, t)),
            mask matches Some(m) ==> old(tape).has(m, Shape::D3(b, 1, t)),
            t > 0,
            t + reach(self.sizes.kernel as int, self.dilation as int) <= usize::MAX,
        ensures
            final(tape).wf(),
            final(tape).extends(old(tape)),
            final(tape).seen@ == old(tape).seen@,
            r.computed(
                final(tape),
                self.parts(old(tape).value(x), old(tape).maybe(mask)),
            ),
            final(tape).has(r.out, Shape::D3(b, self.sizes.channels, t)),
    {
        let p = self.sizes;
        let c: usize = p.channels;
        assert(0 <= self.dilation * (p.kernel - 1)) by (nonlinear_arith)
            requires
                self.dilation > 0,
                p.kernel > 0,
        ;
        assert(c % c == 0) by (nonlinear_arith)
            requires
                c > 0,
        ;
        let total: usize = self.dilation * (p.kernel - 1);
        let left: usize = if p.causal {
            total
        } else {
            total / 2
        };
        let h = tape.op1(Op::PadEdge { left, right: total - left }, x);
        assert(tape.shape(h) == Shape::D3(b, c, (t + total) as usize));
        assert(conv_len(t + total, p.kernel as int, self.dilation as int) == t);
        assert(tape.shape(self.dwconv.weight) == Shape::D3(c, 1, p.kernel));
        assert(tape.shape(self.dwconv.bias) == Shape::D1(c));
        assert(c == 1 * c);
        let dwconv = tape.op3(
            Op::Conv { dilation: self.dilation, groups: c },
            h,
            self.dwconv.weight,
            self.dwconv.bias,
        );
        let h = mask_with(tape, dwconv, mask, b, c, t);
        let h = tape.op1(Op::SwapLast, h);
        let norm = tape.op3(Op::LayerNorm, h, self.norm.weight, self.norm.bias);
        let h = tape.op1(Op::SwapLast, norm);
        let one = Op::Conv { dilation: 1, groups: 1 };
        let pwconv1 = tape.op3(one, h, self.pwconv1.weight, self.pwconv1.bias);
        let h = tape.op1(Op::Gelu, pwconv1);
        let pwconv2 = tape.op3(one, h, self.pwconv2.weight, self.pwconv2.bias);
        let h = tape.op2(Op::Mul, pwconv2, self.gamma);
        let sum = tape.op2(Op::Add, x, h);
        let out = mask_with(tape, sum, mask, b, c, t);
        ConvNextRegs { dwconv, norm, pwconv1, pwconv2, sum, out }
    }
}

impl ConvNextRegs {
    /// Whether the results are those of `parts`.
    pub open spec fn computed(self, tape: &Tape, parts: ConvNextParts) -> bool {
        &&& self.dwconv < tape.len() && tape.value(self.dwconv) == parts.dwconv
        &&& self.norm < tape.len() && tape.value(self.norm) == parts.norm
        &&& self.pwconv1 < tape.len() && tape.value(self.pwconv1) == parts.pwconv1
        &&& self.pwconv2 < tape.len() && tape.value(self.pwconv2) == parts.pwconv2
        &&& self.sum < tape.len() && tape.value(self.sum) == parts.sum
        &&& self.out < tape.len() && tape.value(self.out) == parts.out
    }
}

// ---------------------------------------------------------------------------
// Stacks of ConvNeXt blocks
// ---------------------------------------------------------------------------

/// Which names the results of a stack are given.
#[derive(Debug)]
pub enum Naming {
    /// Each block names the results on its way; the first is named as given.
    Inner(&'static str),
    /// Each block names its output, behind the given text.
    Outer(String),
}

/// The names by their characters.
pub enum NamingView {
    Inner(Seq<char>),
    Outer(Seq<char>),
}

impl View for Naming {
    type V = NamingView;

    open spec fn view(&self) -> NamingView {
        match *self {
            Naming::Inner(dwconv) => NamingView::Inner(dwconv@),
            Naming::Outer(before) => NamingView::Outer(before@),
        }
    }
}

/// A stack of blocks of equal sizes, in which block `i` stands under `root` and its
/// number.
#[derive(Debug)]
pub struct Stack {
    pub sizes: ConvNextSpec,
    pub root: String,
    pub dilations: Vec<usize>,
    pub blocks: Vec<ConvNextBlock>,
}

/// The output of the first `n` blocks of a stack.
pub open spec fn stack_value(
    p: ConvNextSpec,
    root: Seq<char>,
    dilations: Seq<usize>,
    x: Expr,
    mask: Option<Expr>,
    n: int,
) -> Expr
    decreases n,
{
    if n <= 0 {
        x
    } else {
        p.parts(
            root + decimal(n - 1),
            dilations[n - 1],
            stack_value(p, root, dilations, x, mask, n - 1),
            mask,
        ).out
    }
}

/// What block `i` of a stack computes.
pub open spec fn stack_parts(
    p: ConvNextSpec,
    root: Seq<char>,
    dilations: Seq<usize>,
    x: Expr,
    mask: Option<Expr>,
    i: int,
) -> ConvNextParts {
    p.parts(
        root + decimal(i),
        dilations[i],
        stack_value(p, root, dilations, x, mask, i),
        mask,
    )
}

/// The names of what block `i` of a stack computes.
pub open spec fn block_seen(names: NamingView, i: int, parts: ConvNextParts) -> Seq<
    (Seq<char>, Expr),
> {
    match names {
        NamingView::Inner(dwconv) => {
            let at = "convnext."@ + decimal(i);
            seq![
                (at + dwconv, parts.dwconv),
                (at + "/norm/norm/LayerNormalization_output_0"@, parts.norm),
                (at + "/pwconv1/Conv_output_0"@, parts.pwconv1),
                (at + "/pwconv2/Conv_output_0"@, parts.pwconv2),
                (at + "/Add_output_0"@, parts.sum),
            ]
        },
        NamingView::Outer(before) => seq![
            (before + ("convnext."@ + decimal(i) + "/Add_output_0"@), parts.out),
        ],
    }
}

/// The names of what the first `n` blocks of a stack compute.
pub open spec fn stack_seen(
    p: ConvNextSpec,
    root: Seq<char>,
    dilations: Seq<usize>,
    x: Expr,
    mask: Option<Expr>,
    names: NamingView,
    n: int,
) -> Seq<(Seq<char>, Expr)>
    decreases n,
{
    if n <= 0 {
        seq![]
    } else {
        stack_seen(p, root, dilations, x, mask, names, n - 1) + block_seen(
            names,
            n - 1,
            stack_parts(p, root, dilations, x, mask, n - 1),
        )
    }
}

/// Names the results of block `i` of a stack.
fn record_block(
    tape: &mut Tape,
    regs: &ConvNextRegs,
    i: usize,
    names: &Naming,
    parts: Ghost<ConvNextParts>,
)
    requires
        old(tape).wf(),
        regs.computed(old(tape), parts@),
    ensures
        final(tape).wf(),
        final(tape).watched == old(tape).watched,
        final(tape).nodes@ == old(tape).nodes@,
        final(tape).seen@ == old(tape).seen@ + block_seen(names@, i as int, parts@),
{
    let ghost s0 = tape.seen@;
    let ghost list = block_seen(names@, i as int, parts@);
    match names {
        Naming::Inner(dwconv) => {
            let at = join_number("convnext.", i, "");
            assert(at@ == "convnext."@ + decimal(i as int)) by {
                reveal_strlit("");
            }
            let at = at.as_str();
            tape.record(join(at, dwconv), regs.dwconv);
            tape.record(join(at, "/norm/norm/LayerNormalization_output_0"), regs.norm);
            tape.record(join(at, "/pwconv1/Conv_output_0"), regs.pwconv1);
            tape.record(join(at, "/pwconv2/Conv_output_0"), regs.pwconv2);
            tape.record(join(at, "/Add_output_0"), regs.sum);
            let ghost s5 = tape.seen@;
            assert(s5 == s0.push(list[0]).push(list[1]).push(list[2]).push(list[3]).push(list[4]));
            assert(s5 == s0 + list);
        },
        Naming::Outer(before) => {
            let name = join_number("convnext.", i, "/Add_output_0");
            tape.record(join(before.as_str(), name.as_str()), regs.out);
            let ghost s1 = tape.seen@;
            assert(s1 == s0.push(list[0]));
            assert(s1 == s0 + list);
        },
    }
}

impl Stack {
    /// Whether the stack is loaded.
    pub open spec fn loaded(&self, tape: &Tape) -> bool {
        &&& self.blocks@.len() == self.dilations@.len()
        &&& forall|i: int|
            0 <= i < self.blocks@.len() ==> {
                let k = #[trigger] self.blocks@[i];
                &&& k.loaded(tape)
                &&& k.sizes == self.sizes
                &&& k.prefix@ == self.root@ + decimal(i)
                &&& k.dilation == self.dilations@[i]
            }
    }

    /// Whether the kernels of all blocks fit around `t` steps.
    pub open spec fn has_room(&self, t: int) -> bool {
        forall|i: int|
            0 <= i < self.dilations@.len() ==> t + reach(
                self.sizes.kernel as int,
                #[trigger] self.dilations@[i] as int,
            ) <= usize::MAX
    }

    /// The output of the stack.
    pub open spec fn output(&self, x: Expr, mask: Option<Expr>) -> Expr {
        stack_value(
            self.sizes,
            self.root@,
            self.dilations@,
            x,
            mask,
            self.dilations@.len() as int,
        )
    }

    /// The names of what the stack computes.
    pub open spec fn names(&self, x: Expr, mask: Option<Expr>, names: NamingView) -> Seq<
        (Seq<char>, Expr),
    > {
        stack_seen(
            self.sizes,
            self.root@,
            self.dilations@,
            x,
            mask,
            names,
            self.dilations@.len() as int,
        )
    }

    /// Loads a stack of blocks.
    pub fn load(tape: &mut Tape, sizes: ConvNextSpec, root: String, dilations: Vec<usize>) -> (r:
        Stack)
        requires
            old(tape).wf(),
            sizes.wf(),
            forall|i: int| 0 <= i < dilations@.len() ==> #[trigger] dilations@[i] > 0,
        ensures
            final(tape).wf(),
            final(tape).extends(old(tape)),
            final(tape).seen@ == old(tape).seen@,
            r.loaded(final(tape)),
            r.sizes == sizes,
            r.root == root,
            r.dilations == dilations,
    {
        let mut blocks: Vec<ConvNextBlock> = Vec::new();
        for i in 0..dilations.len()
            invariant
                tape.wf(),
                sizes.wf(),
                forall|k: int| 0 <= k < dilations@.len() ==> #[trigger] dilations@[k] > 0,
                tape.extends(old(tape)),
                tape.seen@ == old(tape).seen@,
                blocks@.len() == i,
                forall|k: int|
                    0 <= k < i ==> {
                        let block = #[trigger] blocks@[k];
                        &&& block.loaded(tape)
                        &&& block.sizes == sizes
                        &&& block.prefix@ == root@ + decimal(k)
                        &&& block.dilation == dilations@[k]
                    },
        {
            let prefix = join_number(root.as_str(), i, "");
            assert(prefix@ == root@ + decimal(i as int)) by {
                reveal_strlit("");
            }
            let block = ConvNextBlock::load(tape, sizes, prefix, dilations[i]);
            blocks.push(block);
        }
        Stack { sizes, root, dilations, blocks }
    }

    /// Applies the stack to `x`, of `[batch, channels, time]`, and names what it
    /// computes.
    pub fn forward(
        &self,
        tape: &mut Tape,
        x: usize,
        mask: Option<usize>,
        b: usize,
        t: usize,
        names: &Naming,
    ) -> (r: usize)
        requires
            old(tape).wf(),
            self.loaded(old(tape)),
            old(tape).has(x, Shape::D3(b, self.sizes.channels, t)),
            mask matches Some(m) ==> old(tape).has(m, Shape::D3(b, 1, t)),
            t > 0,
            self.has_room(t as int),
        ensures
            final(tape).wf(),
            final(tape).extends(old(tape)),
            final(tape).seen@ == old(tape).seen@ + self.names(
                old(tape).value(x),
                old(tape).maybe(mask),
                names@,
            ),
            final(tape).holds(
                r,
                self.output(old(tape).value(x), old(tape).maybe(mask)),
                Shape::D3(b, self.sizes.channels, t),
            ),
    {
        let mut h: usize = x;
        let ghost start = *tape;
        let ghost vx = tape.value(x);
        let ghost vm = tape.maybe(mask);
        let ghost p = self.sizes;
        let ghost root = self.root@;
        let ghost dilations = self.dilations@;
        assert(start.seen@ + seq![] == start.seen@);
        for i in 0..self.blocks.len()
            invariant
                start == *old(tape),
                p == self.sizes,
                root == self.root@,
                dilations == self.dilations@,
                tape.wf(),
                tape.extends(&start),
                self.loaded(&start),
                vx == start.value(x),
                vm == start.maybe(mask),
                mask matches Some(m) ==> start.has(m, Shape::D3(b, 1, t)),
                t > 0,
                self.has_room(t as int),
                tape.seen@ == start.seen@ + stack_seen(
                    p,
                    root,
                    dilations,
                    vx,
                    vm,
                    names@,
                    i as int,
                ),
                tape.holds(
                    h,
                    stack_value(p, root, dilations, vx, vm, i as int),
                    Shape::D3(b, p.channels, t),
                ),
        {
            let block = &self.blocks[i];
            assert(block.loaded(&start));
            assert(t + reach(p.kernel as int, dilations[i as int] as int) <= usize::MAX);
            let regs = block.forward(tape, h, mask, b, t);
            let ghost parts = stack_parts(p, root, dilations, vx, vm, i as int);
            record_block(tape, &regs, i, names, Ghost(parts));
            proof {
                let had = stack_seen(p, root, dilations, vx, vm, names@, i as int);
                let more = block_seen(names@, i as int, parts);
                assert(start.seen@ + had + more == start.seen@ + (had + more));
            }
            h = regs.out;
        }
        h
    }
}

} // verus!
