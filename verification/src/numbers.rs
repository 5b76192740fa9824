//! Integer arithmetic shared by the audio and model code.

use vstd::prelude::*;

verus! {

/// The value of a signed number reinterpreted as an unsigned machine word: a
/// negative one counts down from the top of the range.
pub open spec fn word(x: int) -> int {
    if x >= 0 {
        x
    } else {
        x + usize::MAX + 1
    }
}

/// Reinterprets a signed number as a machine word.
pub fn to_word(x: i32) -> (r: usize)
    ensures
        r == word(x as int),
{
    if x >= 0 {
        x as usize
    } else {
        usize::MAX - ((-(x + 1)) as usize)
    }
}

/// How many parts of size `b` it takes to hold `a`.
pub open spec fn parts(a: int, b: int) -> int {
    if a % b == 0 {
        a / b
    } else {
        a / b + 1
    }
}

/// The number of parts of size `b` that hold `a`.
pub fn parts_of(a: usize, b: usize) -> (r: usize)
    requires
        b > 0,
    ensures
        r == parts(a as int, b as int),
{
    proof {
        lemma_parts(a as int, b as int);
    }
    if a % b == 0 {
        a / b
    } else {
        a / b + 1
    }
}

/// The parts hold the whole, and one part fewer would not.
pub proof fn lemma_parts(a: int, b: int)
    requires
        a >= 0,
        b > 0,
    ensures
        0 <= parts(a, b) <= a,
        parts(a, b) * b >= a,
        a > 0 ==> (parts(a, b) - 1) * b < a,
        a == 0 <==> parts(a, b) == 0,
{
    let q = a / b;
    let m = a % b;
    assert(a == b * q + m && 0 <= m < b && q >= 0) by (nonlinear_arith)
        requires
            a >= 0,
            b > 0,
            q == a / b,
            m == a % b,
    ;
    assert(b * q >= q) by (nonlinear_arith)
        requires
            b > 0,
            q >= 0,
    ;
    assert((q + 1) * b == b * q + b) by (nonlinear_arith);
    assert((q - 1) * b == b * q - b) by (nonlinear_arith);
    assert(q * b == b * q) by (nonlinear_arith);
    if a > 0 && m == 0 {
        assert(q > 0) by (nonlinear_arith)
            requires
                b * q == a,
                a > 0,
                b > 0,
        ;
    }
}

/// Parts grow with the whole.
pub proof fn lemma_parts_grow(a: int, c: int, b: int)
    requires
        0 <= a <= c,
        b > 0,
    ensures
        parts(a, b) <= parts(c, b),
{
    lemma_parts(a, b);
    lemma_parts(c, b);
    if parts(a, b) > parts(c, b) {
        assert((parts(a, b) - 1) * b >= parts(c, b) * b) by (nonlinear_arith)
            requires
                parts(a, b) - 1 >= parts(c, b),
                b > 0,
        ;
    }
}

/// The smaller of two numbers.
pub open spec fn smaller(a: int, b: int) -> int {
    if a <= b {
        a
    } else {
        b
    }
}

/// The larger of two numbers.
pub open spec fn larger(a: int, b: int) -> int {
    if a >= b {
        a
    } else {
        b
    }
}

/// The smaller of two machine words.
pub fn smaller_of(a: usize, b: usize) -> (r: usize)
    ensures
        r == smaller(a as int, b as int),
{
    if a <= b {
        a
    } else {
        b
    }
}

/// The larger of two machine words.
pub fn larger_of(a: usize, b: usize) -> (r: usize)
    ensures
        r == larger(a as int, b as int),
{
    if a >= b {
        a
    } else {
        b
    }
}

} // verus!
