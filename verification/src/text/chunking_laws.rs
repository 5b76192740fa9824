//! How a text comes apart: into paragraphs, and into pieces where it is too long.

use vstd::prelude::*;
use vstd::seq_lib::lemma_flatten_concat;

use crate::string_laws::{blank, law_trim, lemma_white_end_back, lemma_white_run};
use crate::strings::{lemma_white_end, split_on, trim, white, white_end, words};
use crate::text::chunk::{
    by_commas, by_sentences, by_words, chunks, cut, flushed, list_chunks, pack, paragraph_chunks,
    sentences, trimmed,
};
use crate::text::chunk_laws::{law_chunks_keep_text, neat, skeleton};
use crate::text::patterns::{
    break_end, last_line_feed, next_break, paragraphs, paragraphs_from,
};

verus! {

// ---------------------------------------------------------------------------
// Pieces that are too long
// ---------------------------------------------------------------------------

/// A word is cut into pieces that make it up, all of them full but the last.
pub proof fn law_cut(w: Seq<char>, max: int)
    requires
        max > 0,
    ensures
        cut(w, max).flatten() == w,
        cut(w, max).len() > 0,
        forall|k: int| 0 <= k < cut(w, max).len() - 1 ==> (#[trigger] cut(w, max)[k]).len() == max,
        cut(w, max).last().len() <= max,
        w.len() > 0 ==> cut(w, max).last().len() > 0,
    decreases w.len(),
{
    let list = cut(w, max);
    if w.len() <= max {
        list.lemma_flatten_one_element();
    } else {
        let head = w.take(max);
        let rest = cut(w.skip(max), max);
        law_cut(w.skip(max), max);
        assert(list == seq![head] + rest);
        lemma_flatten_concat(seq![head], rest);
        seq![head].lemma_flatten_one_element();
        assert(head + w.skip(max) == w);
        assert forall|k: int| 0 <= k < list.len() - 1 implies (#[trigger] list[k]).len() == max by {
            if k > 0 {
                assert(list[k] == rest[k - 1]);
            }
        }
        assert(list.last() == rest.last());
    }
}

/// A piece that is too long stands alone: what is before it and what is behind it are
/// packed as if they were all.
pub proof fn law_long_piece_stands_alone(
    a: Seq<Seq<char>>,
    p: Seq<char>,
    b: Seq<Seq<char>>,
    sep: Seq<char>,
    max: int,
    refine: spec_fn(Seq<char>) -> Seq<Seq<char>>,
    cur: Seq<char>,
)
    requires
        p.len() > max,
    ensures
        pack(a + seq![p] + b, sep, max, refine, cur) == pack(a, sep, max, refine, cur) + refine(p)
            + pack(b, sep, max, refine, seq![]),
    decreases a.len(),
{
    let list = a + seq![p] + b;
    let behind = pack(b, sep, max, refine, seq![]);
    if a.len() == 0 {
        assert(list[0] == p);
        assert(list.skip(1) == b);
    } else {
        assert(list[0] == a[0]);
        assert(list.skip(1) == a.skip(1) + seq![p] + b);
        let q = a[0];
        let next = if q.len() > max {
            Seq::<char>::empty()
        } else if cur.len() == 0 || cur.len() + sep.len() + q.len() > max {
            q
        } else {
            cur + sep + q
        };
        law_long_piece_stands_alone(a.skip(1), p, b, sep, max, refine, next);
        let rest = pack(a.skip(1), sep, max, refine, next);
        assert(flushed(cur) + refine(q) + (rest + refine(p) + behind) == flushed(cur) + refine(q)
            + rest + refine(p) + behind);
        assert(seq![cur] + (rest + refine(p) + behind) == seq![cur] + rest + refine(p) + behind);
    }
}

/// A sentence that is too long is split at its commas, by itself.
pub proof fn law_long_sentence(
    s: Seq<char>,
    a: Seq<Seq<char>>,
    p: Seq<char>,
    b: Seq<Seq<char>>,
    max: int,
)
    requires
        trimmed(sentences(s)) == a + seq![p] + b,
        p.len() > max,
    ensures
        ({
            let refine = |q: Seq<char>| by_commas(q, max);
            by_sentences(s, max) == pack(a, " "@, max, refine, seq![]) + by_commas(p, max) + pack(
                b,
                " "@,
                max,
                refine,
                seq![],
            )
        }),
{
    law_long_piece_stands_alone(a, p, b, " "@, max, |q: Seq<char>| by_commas(q, max), seq![]);
}

/// A part between commas that is too long is split between its words, by itself.
pub proof fn law_long_part(
    s: Seq<char>,
    a: Seq<Seq<char>>,
    p: Seq<char>,
    b: Seq<Seq<char>>,
    max: int,
)
    requires
        trimmed(split_on(s, ',')) == a + seq![p] + b,
        p.len() > max,
    ensures
        ({
            let refine = |q: Seq<char>| by_words(q, max);
            by_commas(s, max) == pack(a, ", "@, max, refine, seq![]) + by_words(p, max) + pack(
                b,
                ", "@,
                max,
                refine,
                seq![],
            )
        }),
{
    law_long_piece_stands_alone(a, p, b, ", "@, max, |q: Seq<char>| by_words(q, max), seq![]);
}

/// A word that is too long is cut, by itself.
pub proof fn law_long_word(
    s: Seq<char>,
    a: Seq<Seq<char>>,
    p: Seq<char>,
    b: Seq<Seq<char>>,
    max: int,
)
    requires
        words(s) == a + seq![p] + b,
        p.len() > max,
    ensures
        ({
            let refine = |q: Seq<char>| cut(q, max);
            by_words(s, max) == pack(a, " "@, max, refine, seq![]) + cut(p, max) + pack(
                b,
                " "@,
                max,
                refine,
                seq![],
            )
        }),
{
    law_long_piece_stands_alone(a, p, b, " "@, max, |q: Seq<char>| cut(q, max), seq![]);
}

/// Trimming pieces and dropping the blank ones takes each piece by itself.
pub proof fn law_trimmed(a: Seq<Seq<char>>, p: Seq<char>)
    ensures
        trimmed(Seq::<Seq<char>>::empty()) == Seq::<Seq<char>>::empty(),
        trimmed(a.push(p)) == if trim(p).len() == 0 {
            trimmed(a)
        } else {
            trimmed(a).push(trim(p))
        },
{
    reveal(Seq::filter);
    let f = |p: Seq<char>| trim(p);
    let none = Seq::<Seq<char>>::empty();
    assert(none.map_values(f) == none);
    let all = a.push(p).map_values(f);
    assert(all.drop_last() == a.map_values(f));
    assert(all.last() == trim(p));
}

pub proof fn lemma_trimmed_add(a: Seq<Seq<char>>, b: Seq<Seq<char>>)
    ensures
        trimmed(a + b) == trimmed(a) + trimmed(b),
{
    let f = |p: Seq<char>| trim(p);
    let g = |p: Seq<char>| p.len() > 0;
    assert((a + b).map_values(f) == a.map_values(f) + b.map_values(f));
    Seq::filter_distributes_over_add(a.map_values(f), b.map_values(f), g);
}

pub proof fn lemma_trimmed_one(p: Seq<char>)
    ensures
        trimmed(seq![p]) == if trim(p).len() == 0 {
            seq![]
        } else {
            seq![trim(p)]
        },
{
    let none = Seq::<Seq<char>>::empty();
    law_trimmed(none, p);
    assert(none.push(p) == seq![p]);
    assert(none.push(trim(p)) == seq![trim(p)]);
}

// ---------------------------------------------------------------------------
// Paragraphs
// ---------------------------------------------------------------------------

/// Whether no blank line stands within a text: there are no two line feeds with nothing
/// but white space between them.
pub open spec fn unbroken(s: Seq<char>) -> bool {
    forall|i: int, j: int|
        0 <= i < j < s.len() && #[trigger] s[i] == '\n' && #[trigger] s[j] == '\n' ==> exists|k: int|
            i < k < j && !white(#[trigger] s[k])
}

/// Whether at least two line feeds stand in a text.
pub open spec fn blank_line(s: Seq<char>) -> bool {
    exists|i: int, j: int| 0 <= i < j < s.len() && #[trigger] s[i] == '\n' && #[trigger] s[j] == '\n'
}

/// The last line feed of a stretch is one, and none stands behind it.
proof fn lemma_last_line_feed(s: Seq<char>, lo: int, hi: int)
    requires
        0 <= lo <= hi <= s.len(),
    ensures
        lo - 1 <= last_line_feed(s, lo, hi) < hi || (lo == hi && last_line_feed(s, lo, hi) == hi - 1),
        last_line_feed(s, lo, hi) >= lo ==> s[last_line_feed(s, lo, hi)] == '\n',
        forall|k: int| last_line_feed(s, lo, hi) < k < hi && lo <= k ==> #[trigger] s[k] != '\n',
    decreases hi - lo,
{
    if lo < hi && s[hi - 1] != '\n' {
        lemma_last_line_feed(s, lo, hi - 1);
    }
}

proof fn lemma_no_break(s: Seq<char>, i: int)
    requires
        unbroken(s),
        0 <= i <= s.len(),
    ensures
        next_break(s, i) == s.len(),
    decreases s.len() - i,
{
    if i < s.len() {
        lemma_no_break(s, i + 1);
        if break_end(s, i) > i {
            lemma_white_end(s, i + 1);
            let e = white_end(s, i + 1);
            lemma_last_line_feed(s, i + 1, e);
            let j = last_line_feed(s, i + 1, e);
            assert(s[i] == '\n' && s[j] == '\n');
            let k = choose|k: int| i < k < j && !white(#[trigger] s[k]);
            assert(white(s[k]));
        }
    }
}

/// A paragraph, trimmed and not blank, is a chunk where it fits, and is split between its
/// sentences where it does not.
pub proof fn law_one_paragraph(p: Seq<char>, max: int)
    requires
        neat(p),
        unbroken(p),
        skeleton(p).len() > 0,
    ensures
        chunks(p, max) == if p.len() <= max {
            seq![p]
        } else {
            by_sentences(p, max)
        },
{
    let none = Seq::<char>::empty();
    law_trim(none, p, none);
    assert(none + p + none == p);
    lemma_no_break(p, 0);
    assert(p.subrange(0, p.len() as int) == p);
    assert(paragraphs(p) == seq![p]);
    lemma_trimmed_one(p);
    let list = seq![p];
    assert(list.drop_last() == Seq::<Seq<char>>::empty());
    assert(list_chunks(list.drop_last(), max) == Seq::<Seq<char>>::empty());
    assert(list_chunks(list, max) == Seq::<Seq<char>>::empty() + paragraph_chunks(p, max));
    assert(list_chunks(list, max) == paragraph_chunks(p, max));
    lemma_found(p, max);
}

/// A text with something to say has chunks in its paragraphs.
proof fn lemma_found(p: Seq<char>, max: int)
    requires
        neat(p),
        skeleton(p).len() > 0,
    ensures
        list_chunks(trimmed(paragraphs(p)), max).len() > 0,
        chunks(p, max) == list_chunks(trimmed(paragraphs(p)), max),
{
    let none = Seq::<char>::empty();
    law_trim(none, p, none);
    assert(none + p + none == p);
    let found = list_chunks(trimmed(paragraphs(p)), max);
    law_chunks_keep_text(p, max);
    if found.len() == 0 {
        let empty = seq![none];
        assert(chunks(p, max) == empty);
        empty.lemma_flatten_one_element();
        assert(empty.flatten() == none);
        reveal(Seq::filter);
        assert(skeleton(none).len() == 0);
    }
}

proof fn lemma_list_chunks_add(a: Seq<Seq<char>>, b: Seq<Seq<char>>, max: int)
    ensures
        list_chunks(a + b, max) == list_chunks(a, max) + list_chunks(b, max),
    decreases b.len(),
{
    if b.len() == 0 {
        assert(a + b == a);
        assert(list_chunks(a, max) + list_chunks(b, max) == list_chunks(a, max));
    } else {
        lemma_list_chunks_add(a, b.drop_last(), max);
        assert((a + b).drop_last() == a + b.drop_last());
        assert((a + b).last() == b.last());
        let x = list_chunks(a, max);
        let y = list_chunks(b.drop_last(), max);
        let z = paragraph_chunks(b.last(), max);
        assert(x + y + z == x + (y + z));
    }
}

/// The last line feed of a stretch of the second of two texts.
proof fn lemma_line_feed_back(x: Seq<char>, y: Seq<char>, lo: int, hi: int)
    requires
        0 <= lo <= hi <= y.len(),
    ensures
        last_line_feed(x + y, x.len() + lo, x.len() + hi) == x.len() + last_line_feed(y, lo, hi),
    decreases hi - lo,
{
    if lo < hi {
        assert((x + y)[x.len() + hi - 1] == y[hi - 1]);
        lemma_line_feed_back(x, y, lo, hi - 1);
    }
}

/// The last line feed of a stretch of the first of two texts.
proof fn lemma_line_feed_front(x: Seq<char>, y: Seq<char>, lo: int, hi: int)
    requires
        0 <= lo <= hi <= x.len(),
    ensures
        last_line_feed(x + y, lo, hi) == last_line_feed(x, lo, hi),
    decreases hi - lo,
{
    if lo < hi {
        assert((x + y)[hi - 1] == x[hi - 1]);
        lemma_line_feed_front(x, y, lo, hi - 1);
    }
}

proof fn lemma_break_back(x: Seq<char>, y: Seq<char>, j: int)
    requires
        0 <= j <= y.len(),
    ensures
        break_end(x + y, x.len() + j) == x.len() + break_end(y, j),
{
    if j < y.len() {
        assert((x + y)[x.len() + j] == y[j]);
        lemma_white_end_back(x, y, j + 1);
        lemma_line_feed_back(x, y, j + 1, white_end(y, j + 1));
    }
}

proof fn lemma_next_back(x: Seq<char>, y: Seq<char>, j: int)
    requires
        0 <= j <= y.len(),
    ensures
        next_break(x + y, x.len() + j) == x.len() + next_break(y, j),
        j <= next_break(y, j) <= y.len(),
    decreases y.len() - j,
{
    if j < y.len() {
        lemma_break_back(x, y, j);
        if !(break_end(y, j) > j) {
            lemma_next_back(x, y, j + 1);
        }
    }
}

proof fn lemma_paragraphs_back(x: Seq<char>, y: Seq<char>, j: int)
    requires
        0 <= j <= y.len(),
    ensures
        paragraphs_from(x + y, x.len() + j) == paragraphs_from(y, j),
    decreases y.len() - j,
{
    lemma_next_back(x, y, j);
    let k = next_break(y, j);
    lemma_break_back(x, y, k);
    let e = break_end(y, k);
    assert((x + y).subrange(x.len() + j, x.len() + k) == y.subrange(j, k));
    assert((x + y).subrange(x.len() + j, (x + y).len() as int) == y.subrange(j, y.len() as int));
    if k < e && e <= y.len() {
        lemma_paragraphs_back(x, y, e);
    }
}

/// A break in the first of two texts, where that does not end with white space.
proof fn lemma_break_front(x: Seq<char>, y: Seq<char>, j: int)
    requires
        neat(x),
        0 <= j < x.len(),
    ensures
        break_end(x + y, j) == break_end(x, j),
        break_end(x, j) <= x.len(),
{
    assert((x + y)[j] == x[j]);
    if x[j] == '\n' {
        lemma_white_end(x, j + 1);
        let e = white_end(x, j + 1);
        if e == x.len() {
            if j + 1 < x.len() {
                assert(white(x[x.len() - 1]));
            } else {
                assert(x[j] == x.last());
            }
        }
        assert forall|k: int| j + 1 <= k < e implies white(#[trigger] (x + y)[k]) by {
            assert((x + y)[k] == x[k]);
        }
        assert((x + y)[e] == x[e]);
        lemma_white_run(x + y, j + 1, e);
        lemma_line_feed_front(x, y, j + 1, e);
        lemma_last_line_feed(x, j + 1, e);
    }
}

proof fn lemma_next_front(x: Seq<char>, y: Seq<char>, i: int)
    requires
        neat(x),
        0 <= i <= x.len(),
    ensures
        i <= next_break(x, i) <= x.len(),
        next_break(x, i) < x.len() ==> next_break(x + y, i) == next_break(x, i),
        next_break(x, i) == x.len() ==> next_break(x + y, i) == next_break(x + y, x.len() as int),
    decreases x.len() - i,
{
    if i < x.len() {
        lemma_break_front(x, y, i);
        if !(break_end(x, i) > i) {
            lemma_next_front(x, y, i + 1);
        }
    }
}

/// A first paragraph with white space but no line feed in front.
proof fn lemma_indented(r: Seq<char>, b: Seq<char>)
    requires
        blank(r),
        forall|k: int| 0 <= k < r.len() ==> #[trigger] r[k] != '\n',
        neat(b),
    ensures
        trimmed(paragraphs(r + b)) == trimmed(paragraphs(b)),
{
    let s = r + b;
    lemma_no_feed(r, b, 0);
    lemma_next_back(r, b, 0);
    let k = next_break(b, 0);
    lemma_break_back(r, b, k);
    let e = break_end(b, k);
    let first = if k < e && e <= b.len() {
        b.subrange(0, k)
    } else {
        b
    };
    assert(b.subrange(0, b.len() as int) == b);
    let long = r + first;
    if k < e && e <= b.len() {
        lemma_paragraphs_back(r, b, e);
        assert(s.subrange(0, r.len() + k) == long);
        let rest = paragraphs_from(b, e);
        assert(paragraphs(s) == seq![long] + rest);
        assert(paragraphs(b) == seq![first] + rest);
        lemma_trimmed_add(seq![long], rest);
        lemma_trimmed_add(seq![first], rest);
    } else {
        assert(s.subrange(0, s.len() as int) == long);
        assert(paragraphs(s) == seq![long]);
        assert(paragraphs(b) == seq![first]);
    }
    lemma_trimmed_one(long);
    lemma_trimmed_one(first);
    lemma_trim_indented(r, first);
}

/// White space in front of a text makes no difference once it is trimmed.
proof fn lemma_trim_indented(r: Seq<char>, t: Seq<char>)
    requires
        blank(r),
    ensures
        trim(r + t) == trim(t),
    decreases r.len(),
{
    if r.len() == 0 {
        assert(r + t == t);
    } else {
        let s = r + t;
        assert(s[0] == r[0]);
        assert(s.skip(1) == r.skip(1) + t);
        lemma_trim_indented(r.skip(1), t);
    }
}

/// No break starts where there is no line feed.
proof fn lemma_no_feed(r: Seq<char>, y: Seq<char>, i: int)
    requires
        0 <= i <= r.len(),
        forall|k: int| 0 <= k < r.len() ==> #[trigger] r[k] != '\n',
    ensures
        next_break(r + y, i) == next_break(r + y, r.len() as int),
    decreases r.len() - i,
{
    if i < r.len() {
        assert((r + y)[i] == r[i]);
        lemma_no_feed(r, y, i + 1);
    }
}

/// The break that a gap between two paragraphs is.
proof fn lemma_gap(a: Seq<char>, gap: Seq<char>, b: Seq<char>) -> (r: (int, int))
    requires
        neat(b),
        blank(gap),
        blank_line(gap),
    ensures
        0 <= r.0 < r.1 < gap.len(),
        next_break(a + gap + b, a.len() as int) == a.len() + r.0,
        break_end(a + gap + b, a.len() + r.0) == a.len() + r.1 + 1,
        forall|k: int| r.1 < k < gap.len() ==> #[trigger] gap[k] != '\n',
{
    let y = gap + b;
    let text = a + y;
    assert(a + gap + b == text);
    let (p, q) = choose|p: int, q: int|
        0 <= p < q < gap.len() && #[trigger] gap[p] == '\n' && #[trigger] gap[q] == '\n';
    let f = lemma_first_feed(gap, p);
    let n = gap.len() as int;
    assert forall|k: int| f + 1 <= k < n implies white(#[trigger] y[k]) by {
        assert(y[k] == gap[k]);
    }
    assert(y[n] == b[0]);
    lemma_white_run(y, f + 1, n);
    lemma_last_line_feed(y, f + 1, n);
    let l = last_line_feed(y, f + 1, n);
    assert(y[q] == '\n') by {
        assert(y[q] == gap[q]);
    }
    assert(l >= q);
    assert(y[f] == '\n') by {
        assert(y[f] == gap[f]);
    }
    assert(break_end(y, f) == l + 1);
    lemma_until_feed(y, 0, f);
    lemma_next_back(a, y, 0);
    lemma_break_back(a, y, f);
    assert forall|k: int| l < k < gap.len() implies #[trigger] gap[k] != '\n' by {
        assert(y[k] == gap[k]);
    }
    (f, l)
}

/// The first line feed.
proof fn lemma_first_feed(s: Seq<char>, p: int) -> (f: int)
    requires
        0 <= p < s.len(),
        s[p] == '\n',
    ensures
        0 <= f <= p,
        s[f] == '\n',
        forall|k: int| 0 <= k < f ==> #[trigger] s[k] != '\n',
    decreases p,
{
    if exists|k: int| 0 <= k < p && #[trigger] s[k] == '\n' {
        let k = choose|k: int| 0 <= k < p && #[trigger] s[k] == '\n';
        lemma_first_feed(s, k)
    } else {
        p
    }
}

proof fn lemma_until_feed(y: Seq<char>, i: int, f: int)
    requires
        0 <= i <= f < y.len(),
        break_end(y, f) > f,
        forall|k: int| i <= k < f ==> #[trigger] y[k] != '\n',
    ensures
        next_break(y, i) == f,
    decreases f - i,
{
    if i < f {
        lemma_until_feed(y, i + 1, f);
    }
}

proof fn lemma_paragraphs_apart(a: Seq<char>, gap: Seq<char>, b: Seq<char>, i: int)
    requires
        neat(a),
        neat(b),
        blank(gap),
        blank_line(gap),
        0 <= i <= a.len(),
    ensures
        trimmed(paragraphs_from(a + gap + b, i)) == trimmed(paragraphs_from(a, i)) + trimmed(
            paragraphs(b),
        ),
    decreases a.len() - i,
{
    let y = gap + b;
    let text = a + gap + b;
    assert(text == a + y);
    let n = a.len() as int;
    lemma_next_front(a, y, i);
    let k = next_break(a, i);
    if k < n {
        lemma_break_front(a, y, k);
        lemma_next_is_break(a, i);
        let e = break_end(a, k);
        lemma_paragraphs_apart(a, gap, b, e);
        let first = a.subrange(i, k);
        assert(text.subrange(i, k) == first);
        let rest = paragraphs_from(a, e);
        let all = paragraphs_from(text, e);
        assert(paragraphs_from(text, i) == seq![first] + all);
        assert(paragraphs_from(a, i) == seq![first] + rest);
        lemma_trimmed_add(seq![first], all);
        lemma_trimmed_add(seq![first], rest);
        let t = trimmed(seq![first]);
        assert(t + (trimmed(rest) + trimmed(paragraphs(b))) == t + trimmed(rest) + trimmed(
            paragraphs(b),
        ));
    } else {
        let (f, l) = lemma_gap(a, gap, b);
        let e = n + l + 1;
        let first = a.subrange(i, n);
        let long = text.subrange(i, n + f);
        let pad = gap.take(f);
        assert(long == first + pad);
        let before = a + gap.take(l + 1);
        let indent = gap.skip(l + 1);
        assert(text == before + (indent + b));
        lemma_paragraphs_back(before, indent + b, 0);
        assert(paragraphs_from(text, e) == paragraphs(indent + b));
        assert(blank(indent)) by {
            assert forall|k: int| 0 <= k < indent.len() implies white(#[trigger] indent[k]) by {
                assert(indent[k] == gap[l + 1 + k]);
            }
        }
        assert forall|k: int| 0 <= k < indent.len() implies #[trigger] indent[k] != '\n' by {
            assert(indent[k] == gap[l + 1 + k]);
        }
        lemma_indented(indent, b);
        assert(paragraphs_from(text, i) == seq![long] + paragraphs_from(text, e));
        lemma_trimmed_add(seq![long], paragraphs_from(text, e));
        assert(paragraphs_from(a, i) == seq![first]) by {
            assert(break_end(a, n) == n);
        }
        lemma_trimmed_one(long);
        lemma_trimmed_one(first);
        assert(blank(pad)) by {
            assert forall|k: int| 0 <= k < pad.len() implies white(#[trigger] pad[k]) by {
                assert(pad[k] == gap[k]);
            }
        }
        lemma_trim_padded(first, pad);
    }
}

/// White space behind a text makes no difference once it is trimmed.
proof fn lemma_trim_padded(t: Seq<char>, r: Seq<char>)
    requires
        blank(r),
    ensures
        trim(t + r) == trim(t),
    decreases t.len(),
{
    if t.len() == 0 {
        let none = Seq::<char>::empty();
        assert(t == none);
        assert(none + none + r == t + r);
        law_trim(none, none, r);
        law_trim(none, none, none);
        assert(none + none + none == none);
    } else if white(t[0]) {
        assert((t + r)[0] == t[0]);
        assert((t + r).skip(1) == t.skip(1) + r);
        lemma_trim_padded(t.skip(1), r);
    } else {
        assert((t + r)[0] == t[0]);
        lemma_trim_end_padded(t, r);
    }
}

proof fn lemma_trim_end_padded(t: Seq<char>, r: Seq<char>)
    requires
        blank(r),
    ensures
        crate::strings::trim_end(t + r) == crate::strings::trim_end(t),
    decreases r.len(),
{
    if r.len() == 0 {
        assert(t + r == t);
    } else {
        assert((t + r).last() == r[r.len() - 1]);
        assert((t + r).drop_last() == t + r.drop_last());
        lemma_trim_end_padded(t, r.drop_last());
    }
}

/// The next break is one.
proof fn lemma_next_is_break(s: Seq<char>, i: int)
    requires
        0 <= i <= s.len(),
    ensures
        next_break(s, i) < s.len() ==> break_end(s, next_break(s, i)) > next_break(s, i),
    decreases s.len() - i,
{
    if i < s.len() && !(break_end(s, i) > i) {
        lemma_next_is_break(s, i + 1);
    }
}

/// Paragraphs are chunked apart: with a blank line between them, two texts have the chunks
/// of the one and then those of the other.
pub proof fn law_paragraphs_apart(a: Seq<char>, gap: Seq<char>, b: Seq<char>, max: int)
    requires
        neat(a),
        neat(b),
        skeleton(a).len() > 0,
        skeleton(b).len() > 0,
        blank(gap),
        blank_line(gap),
    ensures
        chunks(a + gap + b, max) == chunks(a, max) + chunks(b, max),
{
    let text = a + gap + b;
    let none = Seq::<char>::empty();
    assert(text[0] == a[0] && text.last() == b.last());
    law_trim(none, text, none);
    assert(none + text + none == text);
    lemma_paragraphs_apart(a, gap, b, 0);
    lemma_found(a, max);
    lemma_found(b, max);
    let x = trimmed(paragraphs(a));
    let y = trimmed(paragraphs(b));
    lemma_list_chunks_add(x, y, max);
}

/// White space around a text makes no difference to its chunks.
pub proof fn law_chunks_of_trimmed(r: Seq<char>, t: Seq<char>, q: Seq<char>, max: int)
    requires
        blank(r),
        blank(q),
        neat(t),
    ensures
        chunks(r + t + q, max) == chunks(t, max),
        chunks(r, max) == seq![Seq::<char>::empty()],
{
    let none = Seq::<char>::empty();
    law_trim(r, t, q);
    law_trim(none, t, none);
    assert(none + t + none == t);
    law_trim(r, none, none);
    assert(r + none + none == r);
}

} // verus!
