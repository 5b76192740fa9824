//! Reading numbers in decimal.

use vstd::prelude::*;

use crate::strings::{decimal, DIGITS};

verus! {

/// Why a text is not a number.
#[derive(Debug, Clone, Copy, PartialEq, Eq, Structural)]
pub enum NumberError {
    /// There is nothing to read.
    Empty,
    /// There is something other than a digit, or no digit.
    InvalidDigit,
    /// The number is too large.
    Overflow,
}

/// The value of a digit, or ten.
pub open spec fn digit_value(c: char) -> int {
    if '0' <= c <= '9' {
        c as int - '0' as int
    } else {
        10
    }
}

/// Reads digits from position `i` on, behind a number `so_far`. The first thing that
/// is wrong decides.
pub open spec fn digits_from(s: Seq<char>, i: int, so_far: int, max: int) -> Result<int, NumberError>
    decreases s.len() - i,
{
    if i >= s.len() {
        Ok(so_far)
    } else if digit_value(s[i]) == 10 {
        Err(NumberError::InvalidDigit)
    } else if so_far * 10 + digit_value(s[i]) > max {
        Err(NumberError::Overflow)
    } else {
        digits_from(s, i + 1, so_far * 10 + digit_value(s[i]), max)
    }
}

/// Reads a number of at most `max`: digits, with an optional plus sign in front.
pub open spec fn number(s: Seq<char>, max: int) -> Result<int, NumberError> {
    if s.len() == 0 {
        Err(NumberError::Empty)
    } else if s[0] == '+' {
        if s.len() == 1 {
            Err(NumberError::InvalidDigit)
        } else {
            digits_from(s, 1, 0, max)
        }
    } else {
        digits_from(s, 0, 0, max)
    }
}

/// The value of a digit, or ten.
fn digit_value_of(c: char) -> (r: u64)
    ensures
        r == digit_value(c),
        r <= 10,
{
    match c {
        '0' => 0,
        '1' => 1,
        '2' => 2,
        '3' => 3,
        '4' => 4,
        '5' => 5,
        '6' => 6,
        '7' => 7,
        '8' => 8,
        '9' => 9,
        _ => 10,
    }
}

/// Reads a number of at most `max`.
pub fn read_number(s: &[char], max: u64) -> (r: Result<u64, NumberError>)
    ensures
        match r {
            Ok(n) => number(s@, max as int) == Ok::<int, NumberError>(n as int) && n <= max,
            Err(e) => number(s@, max as int) == Err::<int, NumberError>(e),
        },
{
    if s.len() == 0 {
        return Err(NumberError::Empty);
    }
    let mut i: usize = 0;
    if s[0] == '+' {
        if s.len() == 1 {
            return Err(NumberError::InvalidDigit);
        }
        i = 1;
    }
    let mut n: u64 = 0;
    while i < s.len()
        invariant
            i <= s@.len(),
            n <= max,
            digits_from(s@, i as int, n as int, max as int) == number(s@, max as int),
        decreases s@.len() - i,
    {
        let d: u64 = digit_value_of(s[i]);
        if d == 10 {
            return Err(NumberError::InvalidDigit);
        }
        if n > max / 10 {
            assert(n * 10 + d > max);
            return Err(NumberError::Overflow);
        }
        let tens: u64 = n * 10;
        if d > max - tens {
            return Err(NumberError::Overflow);
        }
        n = tens + d;
        i = i + 1;
    }
    Ok(n)
}

/// Reading goes on where it stopped.
proof fn lemma_digits_push(s: Seq<char>, c: char, i: int, so_far: int, max: int)
    requires
        0 <= i <= s.len(),
        digits_from(s, i, so_far, max) is Ok,
        digit_value(c) < 10,
    ensures
        ({
            let n = digits_from(s, i, so_far, max)->Ok_0;
            digits_from(s.push(c), i, so_far, max) == if n * 10 + digit_value(c) > max {
                Err::<int, NumberError>(NumberError::Overflow)
            } else {
                Ok::<int, NumberError>(n * 10 + digit_value(c))
            }
        }),
    decreases s.len() - i,
{
    let t = s.push(c);
    if i >= s.len() {
        assert(t[i] == c);
        assert(digits_from(t, i + 1, so_far * 10 + digit_value(c), max) == Ok::<int, NumberError>(
            so_far * 10 + digit_value(c),
        ));
    } else {
        assert(t[i] == s[i]);
        lemma_digits_push(s, c, i + 1, so_far * 10 + digit_value(s[i]), max);
    }
}

/// What is written in decimal reads back.
proof fn lemma_decimal_reads(n: int, max: int)
    requires
        0 <= n <= max,
    ensures
        digits_from(decimal(n), 0, 0, max) == Ok::<int, NumberError>(n),
        decimal(n).len() > 0,
        digit_value(decimal(n)[0]) < 10,
    decreases n,
{
    if n < 10 {
        let c = DIGITS@[n];
        assert(digit_value(c) == n);
        let s = seq![c];
        assert(decimal(n) == s);
        assert(s[0] == c);
        assert(digits_from(s, 1, 0 * 10 + n, max) == Ok::<int, NumberError>(n));
    } else {
        lemma_decimal_reads(n / 10, max);
        let c = DIGITS@[n % 10];
        assert(digit_value(c) == n % 10);
        lemma_digits_push(decimal(n / 10), c, 0, 0, max);
        assert(n / 10 * 10 + n % 10 == n);
    }
}

/// Reading gives back what was written: a number in decimal is read as that number,
/// where it is not too large.
pub proof fn law_decimal_reads_back(n: int, max: int)
    requires
        0 <= n <= max,
    ensures
        number(decimal(n), max) == Ok::<int, NumberError>(n),
{
    lemma_decimal_reads(n, max);
}

/// Different numbers are written differently.
pub proof fn law_decimal_apart(a: int, b: int)
    requires
        0 <= a,
        0 <= b,
        decimal(a) == decimal(b),
    ensures
        a == b,
{
    let max = if a <= b {
        b
    } else {
        a
    };
    lemma_decimal_reads(a, max);
    lemma_decimal_reads(b, max);
}

/// Digits are read one after the other: with another digit behind it, a number becomes ten
/// times as large and that digit larger; where that is too large it is refused, and so is
/// anything but a digit.
pub proof fn law_one_more_digit(s: Seq<char>, c: char, v: int, max: int)
    requires
        s.len() > 0,
        number(s, max) == Ok::<int, NumberError>(v),
    ensures
        number(s.push(c), max) == if !('0' <= c <= '9') {
            Err::<int, NumberError>(NumberError::InvalidDigit)
        } else if v * 10 + (c as int - 48) > max {
            Err::<int, NumberError>(NumberError::Overflow)
        } else {
            Ok::<int, NumberError>(v * 10 + (c as int - 48))
        },
{
    let t = s.push(c);
    assert(t[0] == s[0]);
    if s[0] == '+' {
        lemma_one_more(s, c, 1, 0, max);
    } else {
        lemma_one_more(s, c, 0, 0, max);
    }
}

proof fn lemma_one_more(s: Seq<char>, c: char, i: int, so_far: int, max: int)
    requires
        0 <= i <= s.len(),
        digits_from(s, i, so_far, max) is Ok,
    ensures
        ({
            let v = digits_from(s, i, so_far, max)->Ok_0;
            digits_from(s.push(c), i, so_far, max) == if !('0' <= c <= '9') {
                Err::<int, NumberError>(NumberError::InvalidDigit)
            } else if v * 10 + (c as int - 48) > max {
                Err::<int, NumberError>(NumberError::Overflow)
            } else {
                Ok::<int, NumberError>(v * 10 + (c as int - 48))
            }
        }),
    decreases s.len() - i,
{
    let t = s.push(c);
    if i < s.len() {
        assert(t[i] == s[i]);
        lemma_one_more(s, c, i + 1, so_far * 10 + digit_value(s[i]), max);
    } else {
        assert(t[i] == c);
        assert(digits_from(t, i + 1, so_far * 10 + digit_value(c), max) == Ok::<int, NumberError>(
            so_far * 10 + digit_value(c),
        ));
    }
}

/// There must be something to read; a plus sign in front counts for nothing.
pub proof fn law_plus_counts_for_nothing(s: Seq<char>, max: int)
    requires
        s.len() > 0,
        s[0] != '+',
    ensures
        number(seq!['+'] + s, max) == number(s, max),
        number(Seq::<char>::empty(), max) == Err::<int, NumberError>(NumberError::Empty),
{
    lemma_digits_back(seq!['+'], s, 0, 0, max);
}

proof fn lemma_digits_back(x: Seq<char>, s: Seq<char>, i: int, so_far: int, max: int)
    requires
        0 <= i <= s.len(),
    ensures
        digits_from(x + s, x.len() + i, so_far, max) == digits_from(s, i, so_far, max),
    decreases s.len() - i,
{
    if i < s.len() {
        assert((x + s)[x.len() + i] == s[i]);
        lemma_digits_back(x, s, i + 1, so_far * 10 + digit_value(s[i]), max);
    }
}

} // verus!
