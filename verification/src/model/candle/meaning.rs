//! What tensor programs mean: the value of an expression, for given inputs and weights.
//!
//! Elements are of any type. What is known of them is only that an operation on given
//! elements has one result: numbers of any precision are such elements.

use vstd::prelude::*;

use crate::model::candle::graph::{
    gather, law_program_runs, shape1, shape2, shape3, Action, Expr, Op, Shape, Tape,
};

verus! {

/// A place in a tensor. The last dimension is `d`; dimensions that a tensor does not have
/// are at zero.
pub struct Place {
    pub a: int,
    pub b: int,
    pub c: int,
    pub d: int,
}

/// A tensor: its shape, and the element at each place.
#[verifier::reject_recursive_types(R)]
pub struct Tensor<R> {
    pub shape: Shape,
    pub at: spec_fn(Place) -> R,
}

/// The elements, the inputs and the weights of a program.
#[verifier::reject_recursive_types(R)]
pub struct World<R> {
    /// A whole number.
    pub whole: spec_fn(int) -> R,
    /// An operation on one element.
    pub alone: spec_fn(Op, R) -> R,
    /// An operation on two elements.
    pub paired: spec_fn(Op, R, R) -> R,
    /// The sum of products.
    pub dot: spec_fn(Seq<R>, Seq<R>) -> R,
    /// The sum.
    pub total: spec_fn(Seq<R>) -> R,
    /// One element of the softmax of a row.
    pub soft: spec_fn(Seq<R>, int) -> R,
    /// One element of a row, normalized by the mean and the variance of the row.
    pub normal: spec_fn(Seq<R>, int) -> R,
    /// An element, normalized by a given mean and variance.
    pub normal_by: spec_fn(R, R, R) -> R,
    /// The row of a table that an element stands for.
    pub index: spec_fn(R) -> int,
    /// The input of a name.
    pub inputs: spec_fn(Seq<char>) -> Tensor<R>,
    /// The elements of the weight of a name.
    pub weights: spec_fn(Seq<char>) -> spec_fn(Place) -> R,
}

// ---------------------------------------------------------------------------
// Places
// ---------------------------------------------------------------------------

/// The length of a dimension, counted from the back; one where there is none.
pub open spec fn back(s: Shape, k: int) -> int {
    if k < s.rank() {
        s.dim(s.rank() - 1 - k)
    } else {
        1
    }
}

impl Place {
    /// The position in a dimension, counted from the back.
    pub open spec fn get(self, k: int) -> int {
        if k == 0 {
            self.d
        } else if k == 1 {
            self.c
        } else if k == 2 {
            self.b
        } else {
            self.a
        }
    }

    /// The place with another position in a dimension, counted from the back.
    pub open spec fn with(self, k: int, n: int) -> Place {
        if k == 0 {
            Place { a: self.a, b: self.b, c: self.c, d: n }
        } else if k == 1 {
            Place { a: self.a, b: self.b, c: n, d: self.d }
        } else if k == 2 {
            Place { a: self.a, b: n, c: self.c, d: self.d }
        } else {
            Place { a: n, b: self.b, c: self.c, d: self.d }
        }
    }
}

/// A place in a vector.
pub open spec fn spot1(l: int) -> Place {
    Place { a: 0, b: 0, c: 0, d: l }
}

/// A place in a matrix.
pub open spec fn spot2(k: int, l: int) -> Place {
    Place { a: 0, b: 0, c: k, d: l }
}

/// A place in a tensor of three dimensions.
pub open spec fn spot3(j: int, k: int, l: int) -> Place {
    Place { a: 0, b: j, c: k, d: l }
}

/// The number of a place, in the order in which elements are stored.
pub open spec fn number(s: Shape, p: Place) -> int {
    ((p.a * back(s, 2) + p.b) * back(s, 1) + p.c) * back(s, 0) + p.d
}

/// The place of a number.
pub open spec fn place(s: Shape, n: int) -> Place {
    let rows = n / back(s, 0);
    let planes = rows / back(s, 1);
    Place {
        a: planes / back(s, 2),
        b: planes % back(s, 2),
        c: rows % back(s, 1),
        d: n % back(s, 0),
    }
}

/// The place that stands for `p` where dimensions of length one are repeated.
pub open spec fn shrunk(s: Shape, p: Place) -> Place {
    let at = |k: int|
        if back(s, k) == 1 {
            0
        } else {
            p.get(k)
        };
    Place { a: at(3), b: at(2), c: at(1), d: at(0) }
}

// ---------------------------------------------------------------------------
// Operations
// ---------------------------------------------------------------------------

/// The row of a tensor that a place lies in.
pub open spec fn row<R>(x: Tensor<R>, p: Place) -> Seq<R> {
    Seq::new(back(x.shape, 0) as nat, |q: int| (x.at)(p.with(0, q)))
}

/// The nearest step that there is.
pub open spec fn nearest(at: int, len: int) -> int {
    if at < 0 {
        0
    } else if at >= len {
        len - 1
    } else {
        at
    }
}

/// An element of an operation on one tensor.
pub open spec fn element1<R>(w: World<R>, op: Op, x: Tensor<R>, p: Place) -> R {
    let s = x.shape;
    match op {
        Op::PadEdge { left, right } => (x.at)(p.with(0, nearest(p.d - left, back(s, 0)))),
        Op::PadZeros { dim, left, right } => {
            let k = s.rank() - 1 - dim;
            let n = p.get(k) - left;
            if 0 <= n < s.dim(dim as int) {
                (x.at)(p.with(k, n))
            } else {
                (w.whole)(0)
            }
        },
        Op::SwapLast => (x.at)(Place { a: p.a, b: p.b, c: p.d, d: p.c }),
        Op::SwapMiddle => (x.at)(Place { a: p.a, b: p.c, c: p.b, d: p.d }),
        Op::Reshape(t) => (x.at)(place(s, number(t, p))),
        Op::Expand(t) => (x.at)(shrunk(s, p)),
        Op::Narrow { dim, start, len } => {
            let k = s.rank() - 1 - dim;
            (x.at)(p.with(k, p.get(k) + start))
        },
        Op::Softmax => (w.soft)(row(x, p), p.d),
        _ => (w.alone)(op, (x.at)(p)),
    }
}

/// An element of a convolution: the products of the kernel with the steps that it covers
/// in the channels of its group.
pub open spec fn convolved<R>(
    w: World<R>,
    dilation: int,
    groups: int,
    x: Tensor<R>,
    kernel: Tensor<R>,
    p: Place,
) -> R {
    let out = back(kernel.shape, 2);
    let per = back(kernel.shape, 1);
    let len = back(kernel.shape, 0);
    let group = p.c / (out / groups);
    (w.dot)(
        Seq::new(
            (per * len) as nat,
            |q: int| (x.at)(spot3(p.b, group * per + q / len, p.d + dilation * (q % len))),
        ),
        Seq::new((per * len) as nat, |q: int| (kernel.at)(spot3(p.c, q / len, q % len))),
    )
}

/// An element of an operation on two tensors.
pub open spec fn element2<R>(w: World<R>, op: Op, x: Tensor<R>, y: Tensor<R>, p: Place) -> R {
    let s = x.shape;
    let t = y.shape;
    match op {
        Op::Mul | Op::Add | Op::Sub | Op::Div => (w.paired)(
            op,
            (x.at)(shrunk(s, p)),
            (y.at)(shrunk(t, p)),
        ),
        Op::AddBias => (w.paired)(Op::Add, (x.at)(p), (y.at)(spot1(p.d))),
        Op::MatMul => (w.dot)(
            row(x, p),
            Seq::new(back(s, 0) as nat, |q: int| (y.at)(shrunk(t, p.with(1, q)))),
        ),
        Op::Cat { dim } => {
            let k = s.rank() - 1 - dim;
            let n = s.dim(dim as int);
            if p.get(k) < n {
                (x.at)(p)
            } else {
                (y.at)(p.with(k, p.get(k) - n))
            }
        },
        Op::Embed => (x.at)(spot2((w.index)((y.at)(spot1(p.c))), p.d)),
        Op::PRelu => (w.paired)(op, (x.at)(p), (y.at)(spot1(0))),
        Op::TimesScalar => (w.paired)(Op::Mul, (x.at)(p), (y.at)(spot1(0))),
        Op::OverScalar | Op::OverFirst => (w.paired)(Op::Div, (x.at)(p), (y.at)(spot1(0))),
        Op::OverValid => (w.paired)(
            Op::Div,
            (x.at)(p),
            (w.total)(
                Seq::new((back(t, 1) * back(t, 0)) as nat, |q: int| (y.at)(place(t, q))),
            ),
        ),
        Op::Conv { dilation, groups } => convolved(w, dilation as int, groups as int, x, y, p),
        _ => (w.paired)(op, (x.at)(p), (y.at)(p)),
    }
}

/// An element of an operation on three tensors.
pub open spec fn element3<R>(
    w: World<R>,
    op: Op,
    x: Tensor<R>,
    y: Tensor<R>,
    z: Tensor<R>,
    p: Place,
) -> R {
    match op {
        Op::Conv { dilation, groups } => (w.paired)(
            Op::Add,
            convolved(w, dilation as int, groups as int, x, y, p),
            (z.at)(spot1(p.c)),
        ),
        Op::Linear => (w.paired)(
            Op::Add,
            (w.dot)(
                row(x, p),
                Seq::new(back(x.shape, 0) as nat, |q: int| (y.at)(spot2(p.d, q))),
            ),
            (z.at)(spot1(p.d)),
        ),
        _ => (w.paired)(
            Op::Add,
            (w.paired)(Op::Mul, (w.normal)(row(x, p), p.d), (y.at)(spot1(p.d))),
            (z.at)(spot1(p.d)),
        ),
    }
}

/// An element of a tensor that is normalized by four vectors: the mean, the variance, the
/// scale and the shift of its channel.
pub open spec fn element5<R>(
    w: World<R>,
    x: Tensor<R>,
    mean: Tensor<R>,
    var: Tensor<R>,
    scale: Tensor<R>,
    shift: Tensor<R>,
    p: Place,
) -> R {
    let v = spot1(p.c);
    (w.paired)(
        Op::Add,
        (w.paired)(
            Op::Mul,
            (w.normal_by)((x.at)(p), (mean.at)(v), (var.at)(v)),
            (scale.at)(v),
        ),
        (shift.at)(v),
    )
}

/// An operation on tensors.
pub open spec fn applied<R>(w: World<R>, op: Op, args: Seq<Tensor<R>>) -> Tensor<R> {
    let x = args[0];
    let y = args[1];
    let z = args[2];
    let u = args[3];
    let v = args[4];
    if args.len() == 1 {
        Tensor { shape: shape1(op, x.shape), at: |p: Place| element1(w, op, x, p) }
    } else if args.len() == 2 {
        Tensor { shape: shape2(op, x.shape, y.shape), at: |p: Place| element2(w, op, x, y, p) }
    } else if args.len() == 3 {
        Tensor {
            shape: shape3(op, x.shape, y.shape, z.shape),
            at: |p: Place| element3(w, op, x, y, z, p),
        }
    } else {
        Tensor { shape: x.shape, at: |p: Place| element5(w, x, y, z, u, v, p) }
    }
}

/// The value of an expression.
pub open spec fn meaning<R>(w: World<R>, e: Expr) -> Tensor<R>
    decreases e,
{
    match e {
        Expr::Input(name) => (w.inputs)(name),
        Expr::Weight(name, shape) => Tensor { shape, at: (w.weights)(name) },
        Expr::Count(n) => Tensor { shape: Shape::D1(n), at: |p: Place| (w.whole)(p.d) },
        Expr::Ones(shape) => Tensor { shape, at: |p: Place| (w.whole)(1) },
        Expr::Apply(op, args) => applied(
            w,
            op,
            Seq::new(
                args.len(),
                |i: int|
                    if 0 <= i < args.len() {
                        meaning(w, args[i])
                    } else {
                        arbitrary()
                    },
            ),
        ),
    }
}

// ---------------------------------------------------------------------------
// Programs
// ---------------------------------------------------------------------------

/// Whether the inputs of a program have the shapes that it says.
pub open spec fn inputs_fit<R>(w: World<R>, tape: Tape) -> bool {
    forall|k: int|
        0 <= k < tape.steps@.len() ==> match (#[trigger] tape.steps@[k]).action {
            Action::Input(name) => (w.inputs)(name@).shape == tape.steps@[k].shape,
            _ => true,
        }
}

/// What a step of a program computes has the shape that the step says.
pub proof fn law_shapes_hold<R>(w: World<R>, tape: Tape, k: int)
    requires
        tape.wf(),
        inputs_fit(w, tape),
        0 <= k < tape.steps@.len(),
    ensures
        meaning(w, tape.nodes@[k].value).shape == tape.steps@[k].shape,
    decreases k,
{
    law_program_runs(tape, k);
    let step = tape.steps@[k];
    match step.action {
        Action::Apply(op, args) => {
            let list = gather(tape.nodes@, args@);
            assert forall|i: int| 0 <= i < args@.len() implies meaning(
                w,
                #[trigger] list[i],
            ).shape == tape.nodes@[args@[i] as int].shape by {
                let j = args@[i] as int;
                assert(j < k);
                law_shapes_hold(w, tape, j);
                law_program_runs(tape, j);
                assert(list[i] == tape.nodes@[j].value);
            }
        },
        _ => {},
    }
}

/// The value of an operation on one expression.
pub proof fn lemma_meaning1<R>(w: World<R>, op: Op, x: Expr)
    ensures
        meaning(w, Expr::Apply(op, seq![x])) == applied(w, op, seq![meaning(w, x)]),
{
    let args = seq![x];
    let values = Seq::new(
        args.len(),
        |i: int|
            if 0 <= i < args.len() {
                meaning(w, args[i])
            } else {
                arbitrary()
            },
    );
    assert(values == seq![meaning(w, x)]);
}

/// The value of an operation on two expressions.
pub proof fn lemma_meaning2<R>(w: World<R>, op: Op, x: Expr, y: Expr)
    ensures
        meaning(w, Expr::Apply(op, seq![x, y])) == applied(
            w,
            op,
            seq![meaning(w, x), meaning(w, y)],
        ),
{
    let args = seq![x, y];
    let values = Seq::new(
        args.len(),
        |i: int|
            if 0 <= i < args.len() {
                meaning(w, args[i])
            } else {
                arbitrary()
            },
    );
    assert(values == seq![meaning(w, x), meaning(w, y)]);
}

/// The value of an operation on three expressions.
pub proof fn lemma_meaning3<R>(w: World<R>, op: Op, x: Expr, y: Expr, z: Expr)
    ensures
        meaning(w, Expr::Apply(op, seq![x, y, z])) == applied(
            w,
            op,
            seq![meaning(w, x), meaning(w, y), meaning(w, z)],
        ),
{
    let args = seq![x, y, z];
    let values = Seq::new(
        args.len(),
        |i: int|
            if 0 <= i < args.len() {
                meaning(w, args[i])
            } else {
                arbitrary()
            },
    );
    assert(values == seq![meaning(w, x), meaning(w, y), meaning(w, z)]);
}

/// The value of an operation on five expressions.
pub proof fn lemma_meaning5<R>(w: World<R>, op: Op, x: Expr, a: Expr, b: Expr, c: Expr, d: Expr)
    ensures
        meaning(w, Expr::Apply(op, seq![x, a, b, c, d])) == applied(
            w,
            op,
            seq![meaning(w, x), meaning(w, a), meaning(w, b), meaning(w, c), meaning(w, d)],
        ),
{
    let args = seq![x, a, b, c, d];
    let values = Seq::new(
        args.len(),
        |i: int|
            if 0 <= i < args.len() {
                meaning(w, args[i])
            } else {
                arbitrary()
            },
    );
    assert(values == seq![
        meaning(w, x),
        meaning(w, a),
        meaning(w, b),
        meaning(w, c),
        meaning(w, d),
    ]);
}

} // verus!
