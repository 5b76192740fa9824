//! What holds of the sentences of every text.

use vstd::prelude::*;
use vstd::seq_lib::lemma_flatten_concat;

use crate::strings::{ends_with, lemma_white_end, trim_end, white, white_end};
use crate::text::chunk::{
    abbreviated, lemma_stops, sentences, sentences_from, ABBREVIATIONS,
};
use crate::text::patterns::{next_stop, stops_from};

verus! {

/// Whether a text ends with an abbreviation: a title, a street, a company, or one of the
/// Latin ones.
pub open spec fn ends_short(s: Seq<char>) -> bool {
    ||| ends_with(s, "Dr."@) || ends_with(s, "Mr."@) || ends_with(s, "Mrs."@)
    ||| ends_with(s, "Ms."@) || ends_with(s, "Prof."@) || ends_with(s, "Sr."@)
    ||| ends_with(s, "Jr."@) || ends_with(s, "St."@) || ends_with(s, "Ave."@)
    ||| ends_with(s, "Rd."@) || ends_with(s, "Blvd."@) || ends_with(s, "Dept."@)
    ||| ends_with(s, "Inc."@) || ends_with(s, "Ltd."@) || ends_with(s, "Co."@)
    ||| ends_with(s, "Corp."@) || ends_with(s, "etc."@) || ends_with(s, "vs."@)
    ||| ends_with(s, "i.e."@) || ends_with(s, "e.g."@) || ends_with(s, "Ph.D."@)
}

/// Whether a full stop, an exclamation mark or a question mark stands at `p`, and white
/// space behind it.
pub open spec fn stops_at(s: Seq<char>, p: int) -> bool {
    &&& 0 <= p
    &&& p + 1 < s.len()
    &&& s[p] == '.' || s[p] == '!' || s[p] == '?'
    &&& white(s[p + 1])
}

/// Whether only white space stands behind `p`.
pub open spec fn blank_behind(s: Seq<char>, p: int) -> bool {
    forall|q: int| p < q < s.len() ==> white(#[trigger] s[q])
}

/// Whether the mark at `p`, with the text before it, ends with an abbreviation.
pub open spec fn short_at(s: Seq<char>, p: int) -> bool {
    ends_short(trim_end(s.take(p)).push(s[p]))
}

/// Whether a text is a sentence, with white space behind it: it stops at its end, if
/// anywhere, but for abbreviations.
pub open spec fn undivided(s: Seq<char>) -> bool {
    forall|p: int| #[trigger] stops_at(s, p) ==> blank_behind(s, p) || short_at(s, p)
}

/// Whether a text stops at its end, and not in an abbreviation.
pub open spec fn comes_to_stop(s: Seq<char>) -> bool {
    exists|p: int| #[trigger] stops_at(s, p) && blank_behind(s, p) && !short_at(s, p)
}

proof fn lemma_ends_short(s: Seq<char>)
    ensures
        abbreviated(s) == ends_short(s),
{
    assert(ABBREVIATIONS@[0] == "Dr." && ABBREVIATIONS@[1] == "Mr." && ABBREVIATIONS@[2] == "Mrs."
        && ABBREVIATIONS@[3] == "Ms." && ABBREVIATIONS@[4] == "Prof." && ABBREVIATIONS@[5] == "Sr."
        && ABBREVIATIONS@[6] == "Jr." && ABBREVIATIONS@[7] == "St." && ABBREVIATIONS@[8] == "Ave."
        && ABBREVIATIONS@[9] == "Rd." && ABBREVIATIONS@[10] == "Blvd." && ABBREVIATIONS@[11]
        == "Dept." && ABBREVIATIONS@[12] == "Inc." && ABBREVIATIONS@[13] == "Ltd."
        && ABBREVIATIONS@[14] == "Co." && ABBREVIATIONS@[15] == "Corp." && ABBREVIATIONS@[16]
        == "etc." && ABBREVIATIONS@[17] == "vs." && ABBREVIATIONS@[18] == "i.e."
        && ABBREVIATIONS@[19] == "e.g." && ABBREVIATIONS@[20] == "Ph.D.");
    if ends_short(s) {
        assert(exists|k: int| 0 <= k < 21 && ends_with(s, #[trigger] ABBREVIATIONS@[k]@));
    }
}

/// The first stop at or after `i` comes before any other.
proof fn lemma_first_stop(s: Seq<char>, i: int, p: int)
    requires
        0 <= i <= p,
        stops_at(s, p),
    ensures
        i <= next_stop(s, i) <= p,
        stops_at(s, next_stop(s, i)),
    decreases p - i,
{
    if i < p && !stops_at(s, i) {
        lemma_first_stop(s, i + 1, p);
    }
}

/// The first stop is one.
proof fn lemma_stop_is(s: Seq<char>, i: int)
    requires
        0 <= i <= s.len(),
    ensures
        next_stop(s, i) < s.len() ==> stops_at(s, next_stop(s, i)),
        i <= next_stop(s, i) <= s.len(),
    decreases s.len() - i,
{
    if i < s.len() && !stops_at(s, i) {
        lemma_stop_is(s, i + 1);
    }
}

/// The stops of a text are where it stops, each with the white space behind it.
proof fn lemma_all_stops(s: Seq<char>, i: int)
    requires
        0 <= i <= s.len(),
    ensures
        forall|n: int|
            0 <= n < stops_from(s, i).len() ==> {
                let (a, e) = #[trigger] stops_from(s, i)[n];
                &&& stops_at(s, a)
                &&& a + 1 < e <= s.len()
                &&& forall|q: int| a < q < e ==> white(#[trigger] s[q])
                &&& e < s.len() ==> !white(s[e])
            },
        forall|p: int|
            i <= p && #[trigger] stops_at(s, p) ==> exists|n: int|
                0 <= n < stops_from(s, i).len() && (#[trigger] stops_from(s, i)[n]).0 == p,
    decreases s.len() - i,
{
    let k = next_stop(s, i);
    let e = white_end(s, k + 1);
    let all = stops_from(s, i);
    lemma_stop_is(s, i);
    if k < s.len() {
        lemma_white_end(s, k + 1);
        lemma_white_end(s, k + 2);
        assert(e == white_end(s, k + 2));
        lemma_all_stops(s, e);
        let tail = stops_from(s, e);
        assert(all == seq![(k, e)] + tail);
        assert forall|n: int| 0 <= n < all.len() implies ({
            let (a, e) = #[trigger] all[n];
            &&& stops_at(s, a)
            &&& a + 1 < e <= s.len()
            &&& forall|q: int| a < q < e ==> white(#[trigger] s[q])
            &&& e < s.len() ==> !white(s[e])
        }) by {
            if n > 0 {
                assert(all[n] == tail[n - 1]);
            }
        }
        assert forall|p: int| i <= p && #[trigger] stops_at(s, p) implies exists|n: int|
            0 <= n < all.len() && (#[trigger] all[n]).0 == p by {
            lemma_first_stop(s, i, p);
            if p == k {
                assert(all[0].0 == p);
            } else {
                if p < e {
                    assert(white(s[p]));
                }
                let m = choose|m: int| 0 <= m < tail.len() && (#[trigger] tail[m]).0 == p;
                assert(all[m + 1] == tail[m]);
            }
        }
    } else {
        assert forall|p: int| i <= p && #[trigger] stops_at(s, p) implies false by {
            lemma_first_stop(s, i, p);
        }
    }
}

/// Whether none of the stops before the `k`-th ends the sentence that starts at `start`.
spec fn none_before(s: Seq<char>, stops: Seq<(int, int)>, k: int, start: int) -> bool {
    forall|j: int|
        0 <= j < k && (#[trigger] stops[j]).0 >= start ==> abbreviated(
            trim_end(s.subrange(start, stops[j].0)).push(s[stops[j].0]),
        )
}

/// A stretch of the text up to a place is undivided where the stops within it are.
proof fn lemma_stretch(s: Seq<char>, k: int, start: int, end: int)
    requires
        0 <= start < end <= s.len(),
        0 <= k <= stops_from(s, 0).len(),
        none_before(s, stops_from(s, 0), k, start),
        k < stops_from(s, 0).len() ==> end == stops_from(s, 0)[k].1 && start
            <= stops_from(s, 0)[k].0,
        k == stops_from(s, 0).len() ==> end == s.len(),
    ensures
        undivided(s.subrange(start, end)),
{
    let stops = stops_from(s, 0);
    let x = s.subrange(start, end);
    lemma_all_stops(s, 0);
    lemma_stops(s, 0);
    assert forall|p: int| #[trigger] stops_at(x, p) implies blank_behind(x, p) || short_at(x, p) by {
        assert(x[p] == s[start + p] && x[p + 1] == s[start + p + 1]);
        assert(stops_at(s, start + p));
        let n = choose|n: int| 0 <= n < stops.len() && (#[trigger] stops[n]).0 == start + p;
        if k < stops.len() && n > k {
            assert(stops[k].1 <= stops[n].0);
        }
        if n == k {
            assert forall|q: int| p < q < x.len() implies white(#[trigger] x[q]) by {
                assert(x[q] == s[start + q]);
            }
        } else {
            assert(x.take(p) == s.subrange(start, start + p));
            lemma_ends_short(trim_end(x.take(p)).push(x[p]));
            assert(short_at(x, p));
        }
    }
}

proof fn lemma_sentences_from(s: Seq<char>, k: int, start: int)
    requires
        0 <= k <= stops_from(s, 0).len(),
        0 <= start <= s.len(),
        none_before(s, stops_from(s, 0), k, start),
        k < stops_from(s, 0).len() ==> start <= stops_from(s, 0)[k].0,
    ensures
        ({
            let list = sentences_from(s, stops_from(s, 0), k, start);
            &&& list.flatten() == s.skip(start)
            &&& forall|n: int| 0 <= n < list.len() ==> undivided(#[trigger] list[n])
            &&& forall|n: int| 0 <= n < list.len() - 1 ==> comes_to_stop(#[trigger] list[n])
            &&& forall|n: int| 0 <= n < list.len() ==> (#[trigger] list[n]).len() > 0
            &&& list.len() > 0 ==> list[0][0] == s[start]
            &&& forall|n: int| 0 < n < list.len() ==> !white((#[trigger] list[n])[0])
        }),
    decreases stops_from(s, 0).len() - k,
{
    let stops = stops_from(s, 0);
    let list = sentences_from(s, stops, k, start);
    lemma_all_stops(s, 0);
    lemma_stops(s, 0);
    let none = Seq::<Seq<char>>::empty();
    assert(none.flatten() == Seq::<char>::empty());
    if k == stops.len() {
        if start < s.len() {
            let x = s.subrange(start, s.len() as int);
            lemma_stretch(s, k, start, s.len() as int);
            assert(list == seq![x]);
            list.lemma_flatten_one_element();
            assert(x == s.skip(start));
        } else {
            assert(s.skip(start) == Seq::<char>::empty());
        }
    } else {
        let (a, e) = stops[k];
        if crate::text::chunk::ends_sentence(s, start, a) {
            let x = s.subrange(start, e);
            lemma_stretch(s, k, start, e);
            assert(none_before(s, stops, k + 1, e)) by {
                assert forall|j: int| 0 <= j < k + 1 && (#[trigger] stops[j]).0 >= e implies false by {
                    if j < k {
                        assert(stops[j].1 <= stops[k].0);
                    }
                }
            }
            assert(k + 1 < stops.len() ==> e <= stops[k + 1].0);
            lemma_sentences_from(s, k + 1, e);
            let rest = sentences_from(s, stops, k + 1, e);
            assert(list == seq![x] + rest);
            lemma_flatten_concat(seq![x], rest);
            seq![x].lemma_flatten_one_element();
            assert(x + s.skip(e) == s.skip(start));
            assert(comes_to_stop(x)) by {
                let p = a - start;
                assert(x[p] == s[a] && x[p + 1] == s[a + 1]);
                assert(stops_at(x, p));
                assert forall|q: int| p < q < x.len() implies white(#[trigger] x[q]) by {
                    assert(x[q] == s[start + q]);
                }
                assert(x.take(p) == s.subrange(start, a));
                lemma_ends_short(trim_end(x.take(p)).push(x[p]));
            }
            assert forall|n: int| 0 <= n < list.len() implies undivided(#[trigger] list[n])
                && list[n].len() > 0 by {
                if n > 0 {
                    assert(list[n] == rest[n - 1]);
                }
            }
            assert forall|n: int| 0 <= n < list.len() - 1 implies comes_to_stop(
                #[trigger] list[n],
            ) by {
                if n > 0 {
                    assert(list[n] == rest[n - 1]);
                }
            }
            assert forall|n: int| 0 < n < list.len() implies !white((#[trigger] list[n])[0]) by {
                assert(list[n] == rest[n - 1]);
                if n == 1 {
                    assert(rest[0][0] == s[e]);
                    if e == s.len() {
                        assert(rest.flatten().len() == 0);
                        assert(rest == seq![rest[0]] + rest.skip(1));
                        lemma_flatten_concat(seq![rest[0]], rest.skip(1));
                        seq![rest[0]].lemma_flatten_one_element();
                    }
                }
            }
        } else {
            assert(none_before(s, stops, k + 1, start));
            lemma_sentences_from(s, k + 1, start);
        }
    }
}

// ---------------------------------------------------------------------------
// Laws
// ---------------------------------------------------------------------------

/// The sentences of a text make up the text. None of them goes on past a full stop, an
/// exclamation mark or a question mark that white space follows, unless the mark belongs
/// to an abbreviation; each but the last ends with such a mark that belongs to none, and
/// the next starts with what is no white space.
pub proof fn law_sentences(s: Seq<char>)
    ensures
        ({
            let list = sentences(s);
            &&& list.flatten() == s
            &&& forall|n: int| 0 <= n < list.len() ==> undivided(#[trigger] list[n])
            &&& forall|n: int| 0 <= n < list.len() - 1 ==> comes_to_stop(#[trigger] list[n])
            &&& forall|n: int|
                0 < n < list.len() ==> (#[trigger] list[n]).len() > 0 && !white(list[n][0])
        }),
{
    let stops = stops_from(s, 0);
    lemma_all_stops(s, 0);
    lemma_sentences_from(s, 0, 0);
    assert(s.skip(0) == s);
    if stops.len() == 0 {
        seq![s].lemma_flatten_one_element();
        assert forall|p: int| #[trigger] stops_at(s, p) implies blank_behind(s, p) || short_at(
            s,
            p,
        ) by {
            let n = choose|n: int| 0 <= n < stops.len() && (#[trigger] stops[n]).0 == p;
        }
    }
}

} // verus!
