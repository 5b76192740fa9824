//! Which samples are run.

use vstd::prelude::*;

use crate::digits::{law_decimal_reads_back, number, read_number, NumberError};
use crate::string_laws::{blank, law_split, law_trim};
use crate::strings::{
    chars_of, decimal, find_char, find_from, pieces, split_at_char, split_on, DIGITS,
};
use crate::text::chunk::{trimmed, trimmed_of};
use crate::text::chunk_laws::neat;
use crate::text::chunking_laws::{lemma_trimmed_add, lemma_trimmed_one};

verus! {

/// One part of a list of lines: a number, or two with a dash between them.
pub open spec fn range(part: Seq<char>) -> Result<(int, int), NumberError> {
    let at = find_from(part, '-', 0);
    if at < part.len() {
        match number(part.subrange(0, at), usize::MAX as int) {
            Err(e) => Err(e),
            Ok(lo) => match number(
                part.subrange(at + 1, part.len() as int),
                usize::MAX as int,
            ) {
                Err(e) => Err(e),
                Ok(hi) => Ok((lo, hi)),
            },
        }
    } else {
        match number(part, usize::MAX as int) {
            Err(e) => Err(e),
            Ok(n) => Ok((n, n)),
        }
    }
}

/// The ranges of the first `n` parts; the first part that is wrong decides.
pub open spec fn ranges(parts: Seq<Seq<char>>, n: int) -> Result<Seq<(int, int)>, NumberError>
    decreases n,
{
    if n <= 0 {
        Ok(seq![])
    } else {
        match ranges(parts, n - 1) {
            Err(e) => Err(e),
            Ok(list) => match range(parts[n - 1]) {
                Err(e) => Err(e),
                Ok(r) => Ok(list.push(r)),
            },
        }
    }
}

/// The ranges of a list of lines: parts between commas, without blank ones.
pub open spec fn line_ranges(spec: Seq<char>) -> Result<Seq<(int, int)>, NumberError> {
    let parts = trimmed(split_on(spec, ','));
    ranges(parts, parts.len() as int)
}

/// Pairs of machine words as pairs of numbers.
pub open spec fn as_numbers(list: Seq<(usize, usize)>) -> Seq<(int, int)> {
    list.map_values(|p: (usize, usize)| (p.0 as int, p.1 as int))
}

/// Reads a number that fits a machine word.
fn read_word(s: &[char]) -> (r: Result<usize, NumberError>)
    ensures
        match r {
            Ok(n) => number(s@, usize::MAX as int) == Ok::<int, NumberError>(n as int),
            Err(e) => number(s@, usize::MAX as int) == Err::<int, NumberError>(e),
        },
{
    match read_number(s, usize::MAX as u64) {
        Ok(n) => Ok(n as usize),
        Err(e) => Err(e),
    }
}

/// Reads one part of a list of lines.
fn read_range(part: &Vec<char>) -> (r: Result<(usize, usize), NumberError>)
    ensures
        match r {
            Ok(p) => range(part@) == Ok::<(int, int), NumberError>((p.0 as int, p.1 as int)),
            Err(e) => range(part@) == Err::<(int, int), NumberError>(e),
        },
{
    let s = part.as_slice();
    let at: usize = find_char(s, '-', 0);
    if at < s.len() {
        let lo = match read_word(vstd::slice::slice_subrange(s, 0, at)) {
            Ok(n) => n,
            Err(e) => {
                return Err(e);
            },
        };
        let hi = match read_word(vstd::slice::slice_subrange(s, at + 1, s.len())) {
            Ok(n) => n,
            Err(e) => {
                return Err(e);
            },
        };
        Ok((lo, hi))
    } else {
        match read_word(s) {
            Ok(n) => Ok((n, n)),
            Err(e) => Err(e),
        }
    }
}

/// Once a part is wrong, so is the list.
proof fn lemma_wrong_part(parts: Seq<Seq<char>>, k: int, n: int, e: NumberError)
    requires
        0 <= k <= n,
        ranges(parts, k) == Err::<Seq<(int, int)>, NumberError>(e),
    ensures
        ranges(parts, n) == Err::<Seq<(int, int)>, NumberError>(e),
    decreases n - k,
{
    if k < n {
        assert(ranges(parts, k + 1) == Err::<Seq<(int, int)>, NumberError>(e));
        lemma_wrong_part(parts, k + 1, n, e);
    }
}

/// Reads a list of lines such as `5,10-20,42`.
pub fn parse_line_spec(spec: &str) -> (r: Result<Vec<(usize, usize)>, NumberError>)
    ensures
        match r {
            Ok(list) => line_ranges(spec@) == Ok::<Seq<(int, int)>, NumberError>(
                as_numbers(list@),
            ),
            Err(e) => line_ranges(spec@) == Err::<Seq<(int, int)>, NumberError>(e),
        },
{
    let chars = chars_of(spec);
    let parts = trimmed_of(&split_at_char(chars.as_slice(), ','));
    let ghost all = pieces(parts@);
    let mut out: Vec<(usize, usize)> = Vec::new();
    assert(as_numbers(out@) == Seq::<(int, int)>::empty());
    for i in 0..parts.len()
        invariant
            all == pieces(parts@),
            all == trimmed(split_on(spec@, ',')),
            ranges(all, i as int) == Ok::<Seq<(int, int)>, NumberError>(as_numbers(out@)),
    {
        assert(all[i as int] == parts@[i as int]@);
        match read_range(&parts[i]) {
            Ok(p) => {
                let ghost before = as_numbers(out@);
                out.push(p);
                assert(as_numbers(out@) == before.push((p.0 as int, p.1 as int)));
            },
            Err(e) => {
                proof {
                    assert(ranges(all, i + 1) == Err::<Seq<(int, int)>, NumberError>(e));
                    lemma_wrong_part(all, i + 1, all.len() as int, e);
                }
                return Err(e);
            },
        }
    }
    Ok(out)
}

/// Whether a number lies in one of the ranges.
pub open spec fn within(list: Seq<(usize, usize)>, i: int) -> bool {
    exists|k: int| 0 <= k < list.len() && (#[trigger] list[k]).0 <= i <= list[k].1
}

/// Whether sample `i` of `total` is run: it lies in one of the ranges, where there
/// are any, and otherwise from `start` to before `end`.
pub open spec fn selected(
    lines: Option<Seq<(usize, usize)>>,
    start: int,
    end: Option<usize>,
    total: int,
    i: int,
) -> bool {
    &&& 0 <= i < total
    &&& match lines {
        Some(list) => within(list, i),
        None => start <= i && match end {
            Some(e) => i < e,
            None => true,
        },
    }
}

/// The ranges of a list, if there is one.
pub open spec fn listed(lines: Option<Vec<(usize, usize)>>) -> Option<Seq<(usize, usize)>> {
    match lines {
        Some(list) => Some(list@),
        None => None,
    }
}

/// Whether a number lies in one of the ranges.
fn in_ranges(list: &Vec<(usize, usize)>, i: usize) -> (r: bool)
    ensures
        r == within(list@, i as int),
{
    for k in 0..list.len()
        invariant
            forall|m: int| 0 <= m < k ==> !((#[trigger] list@[m]).0 <= i <= list@[m].1),
    {
        if list[k].0 <= i && i <= list[k].1 {
            assert(list@[k as int].0 <= i <= list@[k as int].1);
            return true;
        }
    }
    false
}

/// The samples to run, in order and each once.
pub fn selected_indices(
    lines: &Option<Vec<(usize, usize)>>,
    start: usize,
    end: Option<usize>,
    total: usize,
) -> (r: Vec<usize>)
    ensures
        forall|a: int, b: int| 0 <= a < b < r@.len() ==> r@[a] < r@[b],
        forall|i: usize|
            r@.contains(i) <==> #[trigger] selected(
                listed(*lines),
                start as int,
                end,
                total as int,
                i as int,
            ),
{
    let ghost ranges = listed(*lines);
    let mut out: Vec<usize> = Vec::new();
    for i in 0..total
        invariant
            ranges == listed(*lines),
            forall|a: int, b: int| 0 <= a < b < out@.len() ==> out@[a] < out@[b],
            forall|a: int| 0 <= a < out@.len() ==> #[trigger] out@[a] < i,
            forall|k: usize|
                out@.contains(k) <==> k < i && #[trigger] selected(
                    ranges,
                    start as int,
                    end,
                    total as int,
                    k as int,
                ),
    {
        let wanted = match lines {
            Some(list) => in_ranges(list, i),
            None => start <= i && match end {
                Some(e) => i < e,
                None => true,
            },
        };
        let ghost before = out@;
        assert(wanted == selected(ranges, start as int, end, total as int, i as int));
        if wanted {
            out.push(i);
            assert(out@ == before.push(i));
            assert(out@[before.len() as int] == i);
            assert forall|k: usize| out@.contains(k) <==> k < i + 1 && #[trigger] selected(
                ranges,
                start as int,
                end,
                total as int,
                k as int,
            ) by {
                if before.contains(k) {
                    let m = choose|m: int| 0 <= m < before.len() && before[m] == k;
                    assert(out@[m] == k);
                    assert(out@.contains(k));
                }
                if k == i {
                    assert(out@.contains(k));
                }
                if out@.contains(k) && k != i {
                    let m = choose|m: int| 0 <= m < out@.len() && out@[m] == k;
                    assert(before[m] == k);
                    assert(before.contains(k));
                }
            }
        }
    }
    out
}

// ---------------------------------------------------------------------------
// Laws
// ---------------------------------------------------------------------------

/// Ranges of parts one after the other.
proof fn lemma_ranges_first(parts: Seq<Seq<char>>, p: Seq<char>, n: int)
    requires
        0 <= n <= parts.len(),
        range(p) is Ok,
    ensures
        ranges(seq![p] + parts, n + 1) == match ranges(parts, n) {
            Err(e) => Err::<Seq<(int, int)>, NumberError>(e),
            Ok(list) => Ok(seq![range(p)->Ok_0] + list),
        },
    decreases n,
{
    let all = seq![p] + parts;
    if n == 0 {
        assert(ranges(all, 0) == Ok::<Seq<(int, int)>, NumberError>(seq![]));
        assert(Seq::<(int, int)>::empty().push(range(p)->Ok_0) == seq![range(p)->Ok_0]);
        assert(seq![range(p)->Ok_0] + Seq::<(int, int)>::empty() == seq![range(p)->Ok_0]);
    } else {
        lemma_ranges_first(parts, p, n - 1);
        assert(all[n] == parts[n - 1]);
        match ranges(parts, n - 1) {
            Ok(list) => {
                match range(parts[n - 1]) {
                    Ok(r) => {
                        assert((seq![range(p)->Ok_0] + list).push(r) == seq![range(p)->Ok_0]
                            + list.push(r));
                    },
                    _ => {},
                }
            },
            _ => {},
        }
    }
}

/// A list of lines is read part by part: the first, up to a comma and without the white
/// space around it, and then the rest. A blank part counts for nothing.
pub proof fn law_lines_part_by_part(a: Seq<char>, p: Seq<char>, b: Seq<char>, rest: Seq<char>)
    requires
        blank(a),
        blank(b),
        !(a + p + b).contains(','),
        p.len() > 0 ==> neat(p) && range(p) is Ok,
    ensures
        line_ranges(a + p + b + seq![','] + rest) == if p.len() == 0 {
            line_ranges(rest)
        } else {
            match line_ranges(rest) {
                Err(e) => Err(e),
                Ok(list) => Ok(seq![range(p)->Ok_0] + list),
            }
        },
{
    let first = a + p + b;
    law_split(first, ',', rest);
    law_trim(a, p, b);
    let more = split_on(rest, ',');
    lemma_trimmed_add(seq![first], more);
    lemma_trimmed_one(first);
    let parts = trimmed(more);
    if p.len() == 0 {
        assert(Seq::<Seq<char>>::empty() + parts == parts);
    } else {
        lemma_ranges_first(parts, p, parts.len() as int);
    }
}

/// A number stands for itself, and two with a dash between them for all from the first to
/// the second.
pub proof fn law_range_reads_back(lo: int, hi: int)
    requires
        0 <= lo <= usize::MAX,
        0 <= hi <= usize::MAX,
    ensures
        range(decimal(lo)) == Ok::<(int, int), NumberError>((lo, lo)),
        range(decimal(lo) + seq!['-'] + decimal(hi)) == Ok::<(int, int), NumberError>((lo, hi)),
{
    let max = usize::MAX as int;
    law_decimal_reads_back(lo, max);
    law_decimal_reads_back(hi, max);
    let x = decimal(lo);
    let y = decimal(hi);
    let s = x + seq!['-'] + y;
    lemma_no_dash(lo);
    lemma_find(x, '-', 0, x.len() as int);
    assert forall|k: int| 0 <= k < x.len() implies #[trigger] s[k] != '-' by {
        assert(s[k] == x[k]);
    }
    assert(s[x.len() as int] == '-');
    lemma_find(s, '-', 0, x.len() as int);
    assert(s.subrange(0, x.len() as int) == x);
    assert(s.subrange(x.len() as int + 1, s.len() as int) == y);
}

proof fn lemma_find(s: Seq<char>, c: char, i: int, e: int)
    requires
        0 <= i <= e <= s.len(),
        forall|k: int| i <= k < e ==> #[trigger] s[k] != c,
        e == s.len() || s[e] == c,
    ensures
        find_from(s, c, i) == e,
    decreases e - i,
{
    if i < e {
        lemma_find(s, c, i + 1, e);
    }
}

proof fn lemma_no_dash(n: int)
    requires
        0 <= n,
    ensures
        forall|k: int| 0 <= k < decimal(n).len() ==> #[trigger] decimal(n)[k] != '-',
    decreases n,
{
    let d = DIGITS@;
    assert(d[0] == '0' && d[1] == '1' && d[2] == '2' && d[3] == '3' && d[4] == '4' && d[5] == '5'
        && d[6] == '6' && d[7] == '7' && d[8] == '8' && d[9] == '9');
    if n >= 10 {
        lemma_no_dash(n / 10);
        let front = decimal(n / 10);
        assert(decimal(n) == front.push(d[n % 10]));
    } else {
        assert(decimal(n) == seq![d[n]]);
    }
}

/// A sample is run where it is in one of the ranges, ends and all, whichever it is; without
/// ranges, from the start on and before the end.
pub proof fn law_selected(
    a: Seq<(usize, usize)>,
    lo: usize,
    hi: usize,
    start: int,
    end: Option<usize>,
    total: int,
    i: int,
)
    ensures
        selected(Some(a.push((lo, hi))), start, end, total, i) <==> selected(
            Some(a),
            start,
            end,
            total,
            i,
        ) || (lo <= i <= hi && 0 <= i < total),
        !selected(Some(Seq::empty()), start, end, total, i),
        selected(None, start, end, total, i) <==> 0 <= i < total && start <= i && (end matches Some(
            e,
        ) ==> i < e),
{
    let b = a.push((lo, hi));
    if within(a, i) {
        let k = choose|k: int| 0 <= k < a.len() && (#[trigger] a[k]).0 <= i <= a[k].1;
        assert(b[k] == a[k]);
    }
    if lo <= i <= hi {
        assert(b[a.len() as int] == (lo, hi));
    }
    if within(b, i) {
        let k = choose|k: int| 0 <= k < b.len() && (#[trigger] b[k]).0 <= i <= b[k].1;
        if k < a.len() {
            assert(a[k] == b[k]);
        }
    }
}

} // verus!
