//! Tensor programs.
//!
//! A network is written down as a program of tensor operations before it is run.
//! While a program is built, the shape of every intermediate result is known, and
//! no operation can be added whose arguments do not fit it. What the program
//! computes is an expression over the network's inputs and weights.

use vstd::prelude::*;

verus! {

/// The shape of a tensor of up to four dimensions.
#[derive(Debug, Clone, Copy, PartialEq, Eq, Structural)]
pub enum Shape {
    D0,
    D1(usize),
    D2(usize, usize),
    D3(usize, usize, usize),
    D4(usize, usize, usize, usize),
}

/// A tensor operation. Positions of dimensions count from the front.
#[derive(Debug, Clone, Copy, PartialEq, Eq, Structural)]
pub enum Op {
    /// Repeats the first and the last step of the last dimension.
    PadEdge { left: usize, right: usize },
    /// Puts zeros around a dimension.
    PadZeros { dim: usize, left: usize, right: usize },
    /// Exchanges the last two dimensions.
    SwapLast,
    /// Exchanges the second and the third of four dimensions.
    SwapMiddle,
    /// Reads the same elements in another shape.
    Reshape(Shape),
    /// Repeats dimensions of length one.
    Expand(Shape),
    /// Takes `len` steps of a dimension from `start`.
    Narrow { dim: usize, start: usize, len: usize },
    /// The Gaussian error linear unit, by the error function.
    Gelu,
    /// The larger of an element and zero.
    Relu,
    Tanh,
    Exp,
    /// An element times the hyperbolic tangent of its softplus.
    Mish,
    Sin,
    Cos,
    Neg,
    /// The softmax over the last dimension.
    Softmax,
    /// Zero where a mask is one, and a large negative number where it is zero.
    MaskBias,
    /// Divides by the square root of a number.
    InvSqrt(usize),
    /// Multiplies by a number.
    Times(usize),
    /// Element by element; dimensions of length one are repeated.
    Mul,
    Add,
    Sub,
    Div,
    /// The product of matrices, in the last two dimensions.
    MatMul,
    /// Adds a vector along the last dimension.
    AddBias,
    /// Scales what is below zero by a shared factor.
    PRelu,
    /// One tensor after the other, in a dimension.
    Cat { dim: usize },
    /// The rows of a table at given indices.
    Embed,
    /// Divides by a single number.
    OverScalar,
    /// Multiplies by a single number.
    TimesScalar,
    /// Divides by the number of ones in the first row of a mask.
    OverValid,
    /// Divides by the first element of a vector.
    OverFirst,
    /// A convolution over the last dimension, without padding, at stride one; with
    /// a bias where there are three arguments.
    Conv { dilation: usize, groups: usize },
    /// Normalizes the last dimension, scales it and shifts it.
    LayerNorm,
    /// The product with the transpose of a matrix, and a bias.
    Linear,
    /// Normalizes the second dimension by a stored mean and variance, scales it and
    /// shifts it.
    BatchNorm,
}

/// What a program computes.
pub enum Expr {
    /// An input of the network.
    Input(Seq<char>),
    /// A weight of the network.
    Weight(Seq<char>, Shape),
    /// The numbers from zero, as many as there are.
    Count(usize),
    /// Ones.
    Ones(Shape),
    /// An operation on what it is applied to.
    Apply(Op, Seq<Expr>),
}

/// What one step of a program does.
#[derive(Debug)]
pub enum Action {
    Input(String),
    Weight(String),
    Count,
    Ones,
    /// Applies an operation to the results of earlier steps.
    Apply(Op, Vec<usize>),
}

/// One step of a program, with the shape of its result.
#[derive(Debug)]
pub struct Step {
    pub action: Action,
    pub shape: Shape,
}

/// The result of a step.
pub struct Node {
    pub value: Expr,
    pub shape: Shape,
}

/// A program under construction, with the results that were given names. Where it
/// is not watched, names are not kept.
pub struct Tape {
    pub watched: bool,
    pub steps: Vec<Step>,
    pub hooks: Vec<(String, usize)>,
    pub nodes: Ghost<Seq<Node>>,
    pub seen: Ghost<Seq<(Seq<char>, Expr)>>,
}

// ---------------------------------------------------------------------------
// Shapes
// ---------------------------------------------------------------------------

impl Shape {
    /// The number of dimensions.
    pub open spec fn rank(self) -> int {
        match self {
            Shape::D0 => 0,
            Shape::D1(_) => 1,
            Shape::D2(_, _) => 2,
            Shape::D3(_, _, _) => 3,
            Shape::D4(_, _, _, _) => 4,
        }
    }

    /// The length of a dimension.
    pub open spec fn dim(self, i: int) -> int {
        match self {
            Shape::D0 => 0,
            Shape::D1(a) => a as int,
            Shape::D2(a, b) => if i == 0 {
                a as int
            } else {
                b as int
            },
            Shape::D3(a, b, c) => if i == 0 {
                a as int
            } else if i == 1 {
                b as int
            } else {
                c as int
            },
            Shape::D4(a, b, c, d) => if i == 0 {
                a as int
            } else if i == 1 {
                b as int
            } else if i == 2 {
                c as int
            } else {
                d as int
            },
        }
    }

    /// The shape with one dimension replaced.
    pub open spec fn with_dim(self, i: int, n: usize) -> Shape {
        match self {
            Shape::D0 => Shape::D0,
            Shape::D1(_) => Shape::D1(n),
            Shape::D2(a, b) => if i == 0 {
                Shape::D2(n, b)
            } else {
                Shape::D2(a, n)
            },
            Shape::D3(a, b, c) => if i == 0 {
                Shape::D3(n, b, c)
            } else if i == 1 {
                Shape::D3(a, n, c)
            } else {
                Shape::D3(a, b, n)
            },
            Shape::D4(a, b, c, d) => if i == 0 {
                Shape::D4(n, b, c, d)
            } else if i == 1 {
                Shape::D4(a, n, c, d)
            } else if i == 2 {
                Shape::D4(a, b, n, d)
            } else {
                Shape::D4(a, b, c, n)
            },
        }
    }

    /// The number of elements.
    pub open spec fn count(self) -> int {
        match self {
            Shape::D0 => 1,
            Shape::D1(a) => a as int,
            Shape::D2(a, b) => a * b,
            Shape::D3(a, b, c) => a * b * c,
            Shape::D4(a, b, c, d) => a * b * c * d,
        }
    }

    /// The last dimension.
    pub open spec fn last(self) -> int {
        self.dim(self.rank() - 1)
    }

    /// The length of a dimension.
    fn dim_of(self, i: usize) -> (r: usize)
        ensures
            r == self.dim(i as int),
    {
        match self {
            Shape::D0 => 0,
            Shape::D1(a) => a,
            Shape::D2(a, b) => if i == 0 {
                a
            } else {
                b
            },
            Shape::D3(a, b, c) => if i == 0 {
                a
            } else if i == 1 {
                b
            } else {
                c
            },
            Shape::D4(a, b, c, d) => if i == 0 {
                a
            } else if i == 1 {
                b
            } else if i == 2 {
                c
            } else {
                d
            },
        }
    }

    /// The shape with one dimension replaced.
    fn replace_dim(self, i: usize, n: usize) -> (r: Shape)
        ensures
            r == self.with_dim(i as int, n),
    {
        match self {
            Shape::D0 => Shape::D0,
            Shape::D1(_) => Shape::D1(n),
            Shape::D2(a, b) => if i == 0 {
                Shape::D2(n, b)
            } else {
                Shape::D2(a, n)
            },
            Shape::D3(a, b, c) => if i == 0 {
                Shape::D3(n, b, c)
            } else if i == 1 {
                Shape::D3(a, n, c)
            } else {
                Shape::D3(a, b, n)
            },
            Shape::D4(a, b, c, d) => if i == 0 {
                Shape::D4(n, b, c, d)
            } else if i == 1 {
                Shape::D4(a, n, c, d)
            } else if i == 2 {
                Shape::D4(a, b, n, d)
            } else {
                Shape::D4(a, b, c, n)
            },
        }
    }

    /// The position of the last dimension.
    fn last_dim(self) -> (r: usize)
        requires
            self.rank() > 0,
        ensures
            r == self.rank() - 1,
    {
        match self {
            Shape::D0 => 0,
            Shape::D1(_) => 0,
            Shape::D2(_, _) => 1,
            Shape::D3(_, _, _) => 2,
            Shape::D4(_, _, _, _) => 3,
        }
    }
}

/// Whether a dimension can be repeated up to another, or the other up to it.
pub open spec fn meet(a: usize, b: usize) -> bool {
    a == b || a == 1 || b == 1
}

/// The length at which two dimensions meet.
pub open spec fn met(a: usize, b: usize) -> usize {
    if a == 1 {
        b
    } else {
        a
    }
}

/// The length at which two dimensions meet.
fn met_of(a: usize, b: usize) -> (r: usize)
    ensures
        r == met(a, b),
{
    if a == 1 {
        b
    } else {
        a
    }
}

/// Whether a dimension can be repeated up to another.
pub open spec fn stretches(a: usize, b: usize) -> bool {
    a == b || a == 1
}

/// The length of a convolution's result: the positions at which the kernel, spread
/// out by the dilation, lies within the `len` steps.
pub open spec fn conv_len(len: int, kernel: int, dilation: int) -> int {
    len - dilation * (kernel - 1)
}

/// Whether an operation can be applied to one tensor of the given shape.
pub open spec fn fits1(op: Op, s: Shape) -> bool {
    match op {
        Op::PadEdge { left, right } => s.rank() > 0 && s.last() > 0 && left + s.last() + right
            <= usize::MAX,
        Op::PadZeros { dim, left, right } => dim < s.rank() && left + s.dim(dim as int) + right
            <= usize::MAX,
        Op::SwapLast => s.rank() >= 2,
        Op::SwapMiddle => s.rank() == 4,
        Op::Reshape(t) => s.count() == t.count(),
        Op::Expand(t) => match (s, t) {
            (Shape::D1(a), Shape::D1(x)) => stretches(a, x),
            (Shape::D2(a, b), Shape::D2(x, y)) => stretches(a, x) && stretches(b, y),
            (Shape::D3(a, b, c), Shape::D3(x, y, z)) => stretches(a, x) && stretches(b, y)
                && stretches(c, z),
            (Shape::D4(a, b, c, d), Shape::D4(x, y, z, w)) => stretches(a, x) && stretches(b, y)
                && stretches(c, z) && stretches(d, w),
            _ => false,
        },
        Op::Narrow { dim, start, len } => dim < s.rank() && start + len <= s.dim(dim as int),
        Op::Softmax => s.rank() > 0,
        Op::Gelu
        | Op::Relu
        | Op::Tanh
        | Op::Exp
        | Op::Mish
        | Op::Sin
        | Op::Cos
        | Op::Neg
        | Op::MaskBias
        | Op::Times(_) => true,
        Op::InvSqrt(n) => n > 0,
        _ => false,
    }
}

/// The shape of the result of an operation on one tensor.
pub open spec fn shape1(op: Op, s: Shape) -> Shape {
    match op {
        Op::PadEdge { left, right } => s.with_dim(
            s.rank() - 1,
            (left + s.last() + right) as usize,
        ),
        Op::PadZeros { dim, left, right } => s.with_dim(
            dim as int,
            (left + s.dim(dim as int) + right) as usize,
        ),
        Op::SwapLast => match s {
            Shape::D2(a, b) => Shape::D2(b, a),
            Shape::D3(a, b, c) => Shape::D3(a, c, b),
            Shape::D4(a, b, c, d) => Shape::D4(a, b, d, c),
            _ => s,
        },
        Op::SwapMiddle => match s {
            Shape::D4(a, b, c, d) => Shape::D4(a, c, b, d),
            _ => s,
        },
        Op::Reshape(t) => t,
        Op::Expand(t) => t,
        Op::Narrow { dim, start, len } => s.with_dim(dim as int, len),
        _ => s,
    }
}

/// Whether an operation can be applied to two tensors of the given shapes.
pub open spec fn fits2(op: Op, s: Shape, t: Shape) -> bool {
    match op {
        Op::Mul | Op::Add | Op::Sub | Op::Div => match (s, t) {
            (Shape::D1(a), Shape::D1(x)) => meet(a, x),
            (Shape::D2(a, b), Shape::D2(x, y)) => meet(a, x) && meet(b, y),
            (Shape::D3(a, b, c), Shape::D3(x, y, z)) => meet(a, x) && meet(b, y) && meet(c, z),
            (Shape::D4(a, b, c, d), Shape::D4(x, y, z, w)) => meet(a, x) && meet(b, y) && meet(
                c,
                z,
            ) && meet(d, w),
            _ => false,
        },
        Op::MatMul => match (s, t) {
            (Shape::D3(a, b, c), Shape::D2(x, y)) => c == x,
            (Shape::D3(a, b, c), Shape::D3(x, y, z)) => a == x && c == y,
            (Shape::D4(a, b, c, d), Shape::D3(x, y, z)) => x == 1 && d == y,
            (Shape::D4(a, b, c, d), Shape::D4(x, y, z, w)) => a == x && b == y && d == z,
            _ => false,
        },
        Op::AddBias => s.rank() > 0 && t == Shape::D1(s.last() as usize),
        Op::PRelu => t.count() == 1,
        Op::Cat { dim } => s.rank() == t.rank() && dim < s.rank() && s.with_dim(
            dim as int,
            0,
        ) == t.with_dim(dim as int, 0) && s.dim(dim as int) + t.dim(dim as int) <= usize::MAX,
        Op::Embed => s.rank() == 2 && t.rank() == 1,
        Op::OverScalar | Op::TimesScalar => t == Shape::D0,
        Op::OverValid => t.rank() == 3 && t.dim(0) > 0,
        Op::OverFirst => t.rank() == 1 && t.dim(0) > 0,
        Op::Conv { dilation, groups } => match (s, t) {
            (Shape::D3(_, c, len), Shape::D3(out, per_group, kernel)) => {
                &&& dilation > 0 && groups > 0 && kernel > 0
                &&& c == per_group * groups
                &&& out % groups == 0
                &&& conv_len(len as int, kernel as int, dilation as int) > 0
            },
            _ => false,
        },
        _ => false,
    }
}

/// The shape of the result of an operation on two tensors.
pub open spec fn shape2(op: Op, s: Shape, t: Shape) -> Shape {
    match op {
        Op::Mul | Op::Add | Op::Sub | Op::Div => match (s, t) {
            (Shape::D1(a), Shape::D1(x)) => Shape::D1(met(a, x)),
            (Shape::D2(a, b), Shape::D2(x, y)) => Shape::D2(met(a, x), met(b, y)),
            (Shape::D3(a, b, c), Shape::D3(x, y, z)) => Shape::D3(met(a, x), met(b, y), met(c, z)),
            (Shape::D4(a, b, c, d), Shape::D4(x, y, z, w)) => Shape::D4(
                met(a, x),
                met(b, y),
                met(c, z),
                met(d, w),
            ),
            _ => s,
        },
        Op::MatMul => s.with_dim(s.rank() - 1, t.last() as usize),
        Op::Cat { dim } => s.with_dim(
            dim as int,
            (s.dim(dim as int) + t.dim(dim as int)) as usize,
        ),
        Op::Embed => Shape::D2(t.dim(0) as usize, s.dim(1) as usize),
        Op::Conv { dilation, groups } => Shape::D3(
            s.dim(0) as usize,
            t.dim(0) as usize,
            conv_len(s.dim(2), t.dim(2), dilation as int) as usize,
        ),
        _ => s,
    }
}

/// Whether an operation can be applied to three tensors of the given shapes.
pub open spec fn fits3(op: Op, s: Shape, t: Shape, u: Shape) -> bool {
    match op {
        Op::Conv { dilation, groups } => fits2(op, s, t) && u == Shape::D1(t.dim(0) as usize),
        Op::LayerNorm => s.rank() > 0 && t == Shape::D1(s.last() as usize) && u == Shape::D1(
            s.last() as usize,
        ),
        Op::Linear => s.rank() > 0 && t.rank() == 2 && t.dim(1) == s.last() && u == Shape::D1(
            t.dim(0) as usize,
        ),
        _ => false,
    }
}

/// The shape of the result of an operation on three tensors.
pub open spec fn shape3(op: Op, s: Shape, t: Shape, u: Shape) -> Shape {
    match op {
        Op::Conv { dilation, groups } => shape2(op, s, t),
        Op::Linear => s.with_dim(s.rank() - 1, t.dim(0) as usize),
        _ => s,
    }
}

/// Whether a tensor can be normalized by four vectors.
pub open spec fn fits5(op: Op, s: Shape, a: Shape, b: Shape, c: Shape, d: Shape) -> bool {
    let v = Shape::D1(s.dim(1) as usize);
    op == Op::BatchNorm && s.rank() == 3 && a == v && b == v && c == v && d == v
}

/// Computes the shape of the result of an operation on one tensor.
fn shape1_of(op: Op, s: Shape) -> (r: Shape)
    requires
        fits1(op, s),
    ensures
        r == shape1(op, s),
{
    match op {
        Op::PadEdge { left, right } => {
            let at: usize = s.last_dim();
            let n: usize = left + s.dim_of(at) + right;
            s.replace_dim(at, n)
        },
        Op::PadZeros { dim, left, right } => {
            let n: usize = left + s.dim_of(dim) + right;
            s.replace_dim(dim, n)
        },
        Op::SwapLast => match s {
            Shape::D2(a, b) => Shape::D2(b, a),
            Shape::D3(a, b, c) => Shape::D3(a, c, b),
            Shape::D4(a, b, c, d) => Shape::D4(a, b, d, c),
            _ => s,
        },
        Op::SwapMiddle => match s {
            Shape::D4(a, b, c, d) => Shape::D4(a, c, b, d),
            _ => s,
        },
        Op::Reshape(t) => t,
        Op::Expand(t) => t,
        Op::Narrow { dim, start: _, len } => s.replace_dim(dim, len),
        _ => s,
    }
}

/// Computes the shape of the result of an operation on two tensors.
fn shape2_of(op: Op, s: Shape, t: Shape) -> (r: Shape)
    requires
        fits2(op, s, t),
    ensures
        r == shape2(op, s, t),
{
    match op {
        Op::Mul | Op::Add | Op::Sub | Op::Div => match (s, t) {
            (Shape::D1(a), Shape::D1(x)) => Shape::D1(met_of(a, x)),
            (Shape::D2(a, b), Shape::D2(x, y)) => Shape::D2(met_of(a, x), met_of(b, y)),
            (Shape::D3(a, b, c), Shape::D3(x, y, z)) => Shape::D3(
                met_of(a, x),
                met_of(b, y),
                met_of(c, z),
            ),
            (Shape::D4(a, b, c, d), Shape::D4(x, y, z, w)) => Shape::D4(
                met_of(a, x),
                met_of(b, y),
                met_of(c, z),
                met_of(d, w),
            ),
            _ => s,
        },
        Op::MatMul => s.replace_dim(s.last_dim(), t.dim_of(t.last_dim())),
        Op::Cat { dim } => {
            let n: usize = s.dim_of(dim) + t.dim_of(dim);
            s.replace_dim(dim, n)
        },
        Op::Embed => Shape::D2(t.dim_of(0), s.dim_of(1)),
        Op::Conv { dilation, groups: _ } => {
            let kernel: usize = t.dim_of(2);
            let len: usize = s.dim_of(2);
            assert(0 <= dilation * (kernel - 1)) by (nonlinear_arith)
                requires
                    dilation > 0,
                    kernel > 0,
            ;
            let reach: usize = dilation * (kernel - 1);
            Shape::D3(s.dim_of(0), t.dim_of(0), len - reach)
        },
        _ => s,
    }
}

/// Computes the shape of the result of an operation on three tensors.
fn shape3_of(op: Op, s: Shape, t: Shape, u: Shape) -> (r: Shape)
    requires
        fits3(op, s, t, u),
    ensures
        r == shape3(op, s, t, u),
{
    match op {
        Op::Conv { .. } => shape2_of(op, s, t),
        Op::Linear => s.replace_dim(s.last_dim(), t.dim_of(0)),
        _ => s,
    }
}

// ---------------------------------------------------------------------------
// Programs
// ---------------------------------------------------------------------------

/// An operation applied to one expression.
pub open spec fn ap1(op: Op, x: Expr) -> Expr {
    Expr::Apply(op, seq![x])
}

/// An operation applied to two expressions.
pub open spec fn ap2(op: Op, x: Expr, y: Expr) -> Expr {
    Expr::Apply(op, seq![x, y])
}

/// An operation applied to three expressions.
pub open spec fn ap3(op: Op, x: Expr, y: Expr, z: Expr) -> Expr {
    Expr::Apply(op, seq![x, y, z])
}

/// An operation applied to five expressions.
pub open spec fn ap5(op: Op, x: Expr, a: Expr, b: Expr, c: Expr, d: Expr) -> Expr {
    Expr::Apply(op, seq![x, a, b, c, d])
}

/// The expressions at the given positions.
pub open spec fn gather(nodes: Seq<Node>, args: Seq<usize>) -> Seq<Expr> {
    Seq::new(args.len(), |i: int| nodes[args[i] as int].value)
}

/// Whether an operation fits the shapes at the given positions, and gives `shape`.
pub open spec fn well_shaped(nodes: Seq<Node>, op: Op, args: Seq<usize>, shape: Shape) -> bool {
    let s = |i: int| nodes[args[i] as int].shape;
    ||| args.len() == 1 && fits1(op, s(0)) && shape == shape1(op, s(0))
    ||| args.len() == 2 && fits2(op, s(0), s(1)) && shape == shape2(op, s(0), s(1))
    ||| args.len() == 3 && fits3(op, s(0), s(1), s(2)) && shape == shape3(op, s(0), s(1), s(2))
    ||| args.len() == 5 && fits5(op, s(0), s(1), s(2), s(3), s(4)) && shape == s(0)
}

/// Whether a step gives `node`, where the steps before it give `nodes`.
pub open spec fn gives(nodes: Seq<Node>, step: Step, node: Node) -> bool {
    &&& step.shape == node.shape
    &&& match step.action {
        Action::Input(name) => node.value == Expr::Input(name@),
        Action::Weight(name) => node.value == Expr::Weight(name@, step.shape),
        Action::Count => step.shape is D1 && node.value == Expr::Count(step.shape->D1_0),
        Action::Ones => node.value == Expr::Ones(step.shape),
        Action::Apply(op, args) => {
            &&& forall|i: int| 0 <= i < args@.len() ==> #[trigger] args@[i] < nodes.len()
            &&& node.value == Expr::Apply(op, gather(nodes, args@))
            &&& well_shaped(nodes, op, args@, step.shape)
        },
    }
}

impl Tape {
    /// Whether each step gives its node, from nodes before it, and each name stands
    /// for a node.
    pub closed spec fn wf(&self) -> bool {
        &&& self.nodes@.len() == self.steps@.len()
        &&& forall|k: int|
            0 <= k < self.steps@.len() ==> gives(
                self.nodes@.take(k),
                #[trigger] self.steps@[k],
                self.nodes@[k],
            )
        &&& self.hooks@.len() == if self.watched {
            self.seen@.len()
        } else {
            0
        }
        &&& forall|k: int|
            0 <= k < self.hooks@.len() ==> {
                &&& (#[trigger] self.hooks@[k]).1 < self.nodes@.len()
                &&& self.seen@[k] == (
                    self.hooks@[k].0@,
                    self.nodes@[self.hooks@[k].1 as int].value,
                )
            }
    }

    /// The number of results.
    pub open spec fn len(&self) -> int {
        self.nodes@.len() as int
    }

    /// What a step computes.
    pub open spec fn value(&self, r: usize) -> Expr {
        self.nodes@[r as int].value
    }

    /// What a step computes, if there is one.
    pub open spec fn maybe(&self, r: Option<usize>) -> Option<Expr> {
        match r {
            Some(k) => Some(self.value(k)),
            None => None,
        }
    }

    /// The shape of what a step computes.
    pub open spec fn shape(&self, r: usize) -> Shape {
        self.nodes@[r as int].shape
    }

    /// Whether a step computes `e`, in shape `s`.
    pub open spec fn holds(&self, r: usize, e: Expr, s: Shape) -> bool {
        r < self.nodes@.len() && self.nodes@[r as int].value == e && self.nodes@[r as int].shape
            == s
    }

    /// Whether a step has a result of shape `s`.
    pub open spec fn has(&self, r: usize, s: Shape) -> bool {
        r < self.nodes@.len() && self.nodes@[r as int].shape == s
    }

    /// Whether the steps of another program come first in this one.
    pub open spec fn extends(&self, before: &Tape) -> bool {
        &&& self.watched == before.watched
        &&& before.nodes@.len() <= self.nodes@.len()
        &&& forall|k: int|
            0 <= k < before.nodes@.len() ==> #[trigger] self.nodes@[k] == before.nodes@[k]
    }

    /// Whether this is another program with one more step, which computes `e`, and
    /// with the same names.
    pub open spec fn grown(&self, before: &Tape, r: usize, e: Expr, s: Shape) -> bool {
        &&& r == before.nodes@.len()
        &&& self.watched == before.watched
        &&& self.nodes@ == before.nodes@.push(Node { value: e, shape: s })
        &&& self.seen@ == before.seen@
    }

    /// A program of no steps.
    pub fn new(watched: bool) -> (r: Tape)
        ensures
            r.wf(),
            r.watched == watched,
            r.len() == 0,
            r.seen@.len() == 0,
    {
        Tape {
            watched,
            steps: Vec::new(),
            hooks: Vec::new(),
            nodes: Ghost(Seq::empty()),
            seen: Ghost(Seq::empty()),
        }
    }

    /// Appends a step.
    fn push(&mut self, step: Step, Ghost(node): Ghost<Node>) -> (r: usize)
        requires
            old(self).wf(),
            gives(old(self).nodes@, step, node),
        ensures
            final(self).wf(),
            final(self).grown(old(self), r, node.value, node.shape),
    {
        let r: usize = self.steps.len();
        let ghost before = self.nodes@;
        self.steps.push(step);
        self.nodes = Ghost(before.push(node));
        proof {
            assert forall|k: int| 0 <= k < self.steps@.len() implies gives(
                self.nodes@.take(k),
                #[trigger] self.steps@[k],
                self.nodes@[k],
            ) by {
                if k < before.len() {
                    assert(self.nodes@.take(k) == before.take(k));
                    assert(self.steps@[k] == old(self).steps@[k]);
                } else {
                    assert(self.nodes@.take(k) == before);
                }
            }
        }
        r
    }

    /// The shape of what a step computes.
    fn shape_at(&self, r: usize) -> (s: Shape)
        requires
            self.wf(),
            r < self.len(),
        ensures
            s == self.shape(r),
    {
        let step = &self.steps[r];
        assert(gives(self.nodes@.take(r as int), self.steps@[r as int], self.nodes@[r as int]));
        step.shape
    }

    /// Names the result of a step. The name is kept where the program is watched.
    pub fn record(&mut self, name: String, r: usize)
        requires
            old(self).wf(),
            r < old(self).len(),
        ensures
            final(self).wf(),
            final(self).watched == old(self).watched,
            final(self).nodes@ == old(self).nodes@,
            final(self).seen@ == old(self).seen@.push((name@, old(self).value(r))),
    {
        let ghost before = self.seen@;
        let ghost pair = (name@, self.value(r));
        if self.watched {
            self.hooks.push((name, r));
        }
        self.seen = Ghost(before.push(pair));
    }

    /// Takes an input of the network.
    pub fn input(&mut self, name: String, shape: Shape) -> (r: usize)
        requires
            old(self).wf(),
        ensures
            final(self).wf(),
            final(self).grown(old(self), r, Expr::Input(name@), shape),
    {
        let ghost node = Node { value: Expr::Input(name@), shape };
        self.push(Step { action: Action::Input(name), shape }, Ghost(node))
    }

    /// Takes a weight of the network.
    pub fn weight(&mut self, name: String, shape: Shape) -> (r: usize)
        requires
            old(self).wf(),
        ensures
            final(self).wf(),
            final(self).grown(old(self), r, Expr::Weight(name@, shape), shape),
    {
        let ghost node = Node { value: Expr::Weight(name@, shape), shape };
        self.push(Step { action: Action::Weight(name), shape }, Ghost(node))
    }

    /// Makes the numbers from zero to below `n`.
    pub fn count(&mut self, n: usize) -> (r: usize)
        requires
            old(self).wf(),
        ensures
            final(self).wf(),
            final(self).grown(old(self), r, Expr::Count(n), Shape::D1(n)),
    {
        let ghost node = Node { value: Expr::Count(n), shape: Shape::D1(n) };
        self.push(Step { action: Action::Count, shape: Shape::D1(n) }, Ghost(node))
    }

    /// Makes ones.
    pub fn ones(&mut self, shape: Shape) -> (r: usize)
        requires
            old(self).wf(),
        ensures
            final(self).wf(),
            final(self).grown(old(self), r, Expr::Ones(shape), shape),
    {
        let ghost node = Node { value: Expr::Ones(shape), shape };
        self.push(Step { action: Action::Ones, shape }, Ghost(node))
    }

    /// Applies an operation to one result.
    pub fn op1(&mut self, op: Op, x: usize) -> (r: usize)
        requires
            old(self).wf(),
            x < old(self).len(),
            fits1(op, old(self).shape(x)),
        ensures
            final(self).wf(),
            final(self).grown(
                old(self),
                r,
                ap1(op, old(self).value(x)),
                shape1(op, old(self).shape(x)),
            ),
    {
        let shape = shape1_of(op, self.shape_at(x));
        let args = vec![x];
        let ghost node = Node { value: ap1(op, self.value(x)), shape };
        assert(gather(self.nodes@, args@) == seq![self.value(x)]);
        self.push(Step { action: Action::Apply(op, args), shape }, Ghost(node))
    }

    /// Applies an operation to two results.
    pub fn op2(&mut self, op: Op, x: usize, y: usize) -> (r: usize)
        requires
            old(self).wf(),
            x < old(self).len(),
            y < old(self).len(),
            fits2(op, old(self).shape(x), old(self).shape(y)),
        ensures
            final(self).wf(),
            final(self).grown(
                old(self),
                r,
                ap2(op, old(self).value(x), old(self).value(y)),
                shape2(op, old(self).shape(x), old(self).shape(y)),
            ),
    {
        let shape = shape2_of(op, self.shape_at(x), self.shape_at(y));
        let args = vec![x, y];
        let ghost node = Node { value: ap2(op, self.value(x), self.value(y)), shape };
        assert(gather(self.nodes@, args@) == seq![self.value(x), self.value(y)]);
        self.push(Step { action: Action::Apply(op, args), shape }, Ghost(node))
    }

    /// Applies an operation to three results.
    pub fn op3(&mut self, op: Op, x: usize, y: usize, z: usize) -> (r: usize)
        requires
            old(self).wf(),
            x < old(self).len(),
            y < old(self).len(),
            z < old(self).len(),
            fits3(op, old(self).shape(x), old(self).shape(y), old(self).shape(z)),
        ensures
            final(self).wf(),
            final(self).grown(
                old(self),
                r,
                ap3(op, old(self).value(x), old(self).value(y), old(self).value(z)),
                shape3(op, old(self).shape(x), old(self).shape(y), old(self).shape(z)),
            ),
    {
        let shape = shape3_of(op, self.shape_at(x), self.shape_at(y), self.shape_at(z));
        let args = vec![x, y, z];
        let ghost node = Node {
            value: ap3(op, self.value(x), self.value(y), self.value(z)),
            shape,
        };
        assert(gather(self.nodes@, args@) == seq![self.value(x), self.value(y), self.value(z)]);
        self.push(Step { action: Action::Apply(op, args), shape }, Ghost(node))
    }

    /// Normalizes a result by a mean, a variance, a scale and a shift.
    pub fn batch_norm(&mut self, x: usize, mean: usize, var: usize, w: usize, b: usize) -> (r:
        usize)
        requires
            old(self).wf(),
            x < old(self).len(),
            mean < old(self).len(),
            var < old(self).len(),
            w < old(self).len(),
            b < old(self).len(),
            fits5(
                Op::BatchNorm,
                old(self).shape(x),
                old(self).shape(mean),
                old(self).shape(var),
                old(self).shape(w),
                old(self).shape(b),
            ),
        ensures
            final(self).wf(),
            final(self).grown(
                old(self),
                r,
                ap5(
                    Op::BatchNorm,
                    old(self).value(x),
                    old(self).value(mean),
                    old(self).value(var),
                    old(self).value(w),
                    old(self).value(b),
                ),
                old(self).shape(x),
            ),
    {
        let shape = self.shape_at(x);
        let args = vec![x, mean, var, w, b];
        let ghost list = seq![
            self.value(x),
            self.value(mean),
            self.value(var),
            self.value(w),
            self.value(b),
        ];
        let ghost node = Node { value: Expr::Apply(Op::BatchNorm, list), shape };
        assert(gather(self.nodes@, args@) == list);
        self.push(Step { action: Action::Apply(Op::BatchNorm, args), shape }, Ghost(node))
    }
}

/// A program has a result for each step and no other, of the shape that the step says.
pub proof fn law_steps_have_results(tape: Tape)
    requires
        tape.wf(),
    ensures
        tape.steps@.len() == tape.len(),
        forall|r: usize| r < tape.len() ==> tape.steps@[r as int].shape == #[trigger] tape.shape(r),
{
    assert forall|r: usize| r < tape.len() implies tape.steps@[r as int].shape
        == #[trigger] tape.shape(r) by {
        assert(gives(
            tape.nodes@.take(r as int),
            tape.steps@[r as int],
            tape.nodes@[r as int],
        ));
    }
}

/// A program can be run from front to back: each step reads the results of steps
/// before it only, its operation fits their shapes, and what it gives is the expression
/// and the shape that are claimed of it.
pub proof fn law_program_runs(tape: Tape, k: int)
    requires
        tape.wf(),
        0 <= k < tape.steps@.len(),
    ensures
        tape.steps@.len() == tape.len(),
        gives(tape.nodes@, tape.steps@[k], tape.nodes@[k]),
        tape.steps@[k].action matches Action::Apply(_, args) ==> forall|i: int|
            0 <= i < args@.len() ==> #[trigger] args@[i] < k,
{
    let few = tape.nodes@.take(k);
    assert(gives(few, tape.steps@[k], tape.nodes@[k]));
    match tape.steps@[k].action {
        Action::Apply(op, args) => {
            assert forall|i: int| 0 <= i < args@.len() implies #[trigger] args@[i] < k
                && few[args@[i] as int] == tape.nodes@[args@[i] as int] by {}
            assert(gather(few, args@) == gather(tape.nodes@, args@));
        },
        _ => {},
    }
}

/// A watched program keeps every name that was recorded, in order, each with the result
/// that it was recorded for; a program that is not watched keeps none.
pub proof fn law_names_are_kept(tape: Tape)
    requires
        tape.wf(),
    ensures
        tape.watched ==> tape.hooks@.len() == tape.seen@.len(),
        !tape.watched ==> tape.hooks@.len() == 0,
        forall|k: int|
            0 <= k < tape.hooks@.len() ==> {
                &&& (#[trigger] tape.hooks@[k]).1 < tape.len()
                &&& tape.seen@[k] == (tape.hooks@[k].0@, tape.value(tape.hooks@[k].1))
            },
{
}

} // verus!
