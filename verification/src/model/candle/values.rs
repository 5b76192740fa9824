//! The values that programs compute, element by element.

use vstd::prelude::*;

use crate::model::candle::graph::{Expr, Op, Shape};
use crate::model::candle::meaning::{meaning, spot1, spot2, spot3, Place, World};

verus! {

/// The shape of a value.
pub open spec fn shape_of<R>(w: World<R>, e: Expr) -> Shape {
    meaning(w, e).shape
}

/// An element of a vector.
pub open spec fn v1<R>(w: World<R>, e: Expr, i: int) -> R {
    (meaning(w, e).at)(spot1(i))
}

/// An element of a matrix.
pub open spec fn v2<R>(w: World<R>, e: Expr, i: int, j: int) -> R {
    (meaning(w, e).at)(spot2(i, j))
}

/// An element of a tensor of three dimensions.
pub open spec fn v3<R>(w: World<R>, e: Expr, i: int, j: int, k: int) -> R {
    (meaning(w, e).at)(spot3(i, j, k))
}

/// An element of a tensor of four dimensions.
pub open spec fn v4<R>(w: World<R>, e: Expr, h: int, i: int, j: int, k: int) -> R {
    (meaning(w, e).at)((Place { a: h, b: i, c: j, d: k }))
}

/// An element of a weight that is a vector.
pub open spec fn w1<R>(w: World<R>, name: Seq<char>, i: int) -> R {
    (w.weights)(name)(spot1(i))
}

/// An element of a weight that is a matrix.
pub open spec fn w2<R>(w: World<R>, name: Seq<char>, i: int, j: int) -> R {
    (w.weights)(name)(spot2(i, j))
}

/// An element of a weight of three dimensions.
pub open spec fn w3<R>(w: World<R>, name: Seq<char>, i: int, j: int, k: int) -> R {
    (w.weights)(name)(spot3(i, j, k))
}

/// A sum.
pub open spec fn plus<R>(w: World<R>, a: R, b: R) -> R {
    (w.paired)(Op::Add, a, b)
}

/// A difference.
pub open spec fn minus<R>(w: World<R>, a: R, b: R) -> R {
    (w.paired)(Op::Sub, a, b)
}

/// A product.
pub open spec fn times<R>(w: World<R>, a: R, b: R) -> R {
    (w.paired)(Op::Mul, a, b)
}

/// A quotient.
pub open spec fn over<R>(w: World<R>, a: R, b: R) -> R {
    (w.paired)(Op::Div, a, b)
}

// ---------------------------------------------------------------------------
// Numbers
// ---------------------------------------------------------------------------

/// The sum of the products of `a` and `b`.
pub open spec fn products(a: Seq<real>, b: Seq<real>) -> real
    decreases a.len(),
{
    if a.len() == 0 {
        0real
    } else {
        products(a.drop_last(), b.drop_last()) + a.last() * b.last()
    }
}

/// Whether the elements are numbers, and the operations on them what their names say.
pub open spec fn numbers(w: World<real>) -> bool {
    &&& forall|n: int| #[trigger] (w.whole)(n) == n as real
    &&& forall|a: real, b: real| #[trigger] (w.paired)(Op::Add, a, b) == a + b
    &&& forall|a: real, b: real| #[trigger] (w.paired)(Op::Sub, a, b) == a - b
    &&& forall|a: real, b: real| #[trigger] (w.paired)(Op::Mul, a, b) == a * b
    &&& forall|a: real, b: real| b != 0real ==> #[trigger] (w.paired)(Op::Div, a, b) == a / b
    &&& forall|n: usize, a: real| #[trigger] (w.alone)(Op::Times(n), a) == (n as int as real) * a
    &&& forall|a: real| #[trigger] (w.alone)(Op::Neg, a) == -a
    &&& forall|a: real|
        #[trigger] (w.alone)(Op::Exp, a) > 0real && (w.alone)(Op::Exp, a) >= 1real + a
    &&& forall|a: Seq<real>, b: Seq<real>|
        a.len() == b.len() ==> #[trigger] (w.dot)(a, b) == products(a, b)
}

} // verus!
