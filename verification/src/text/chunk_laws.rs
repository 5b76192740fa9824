//! What holds of every way to chunk a text.

use vstd::prelude::*;
use vstd::seq_lib::lemma_flatten_concat;

use crate::strings::{
    find_from, lemma_find_from, lemma_white_end, lemma_word_end, split_from, split_on, trim,
    trim_end, trim_start, white, white_end, word_end, words, words_from,
};
use crate::text::chunk::{
    by_commas, by_sentences, by_words, chunks, cut, flushed, lemma_stops, list_chunks, pack,
    paragraph_chunks, sentences, sentences_from, trimmed,
};
use crate::text::patterns::{
    break_end, last_line_feed, next_break, paragraphs, paragraphs_from, stops_from,
};

verus! {

/// The characters of `s` that no chunking drops: all but white space and commas.
pub open spec fn skeleton(s: Seq<char>) -> Seq<char> {
    s.filter(|c: char| !white(c) && c != ',')
}

/// The skeleton of a list of texts, one after the other.
pub open spec fn spoken(list: Seq<Seq<char>>) -> Seq<char> {
    skeleton(list.flatten())
}

/// Whether a text has no white space at either end and is not empty.
pub open spec fn neat(s: Seq<char>) -> bool {
    s.len() > 0 && !white(s[0]) && !white(s.last())
}

/// Whether `c` is a stretch of `text`.
pub open spec fn run_of(c: Seq<char>, text: Seq<char>) -> bool {
    exists|i: int, j: int| 0 <= i <= j <= text.len() && c == #[trigger] text.subrange(i, j)
}

/// Whether a chunk is neat, and short enough where there is room at all.
pub open spec fn sound(c: Seq<char>, max: int) -> bool {
    neat(c) && (max > 0 ==> c.len() <= max)
}

/// Whether every chunk of a list is sound.
pub open spec fn all_sound(list: Seq<Seq<char>>, max: int) -> bool {
    forall|i: int| 0 <= i < list.len() ==> sound(#[trigger] list[i], max)
}

// ---------------------------------------------------------------------------
// Skeletons
// ---------------------------------------------------------------------------

proof fn lemma_skeleton_add(a: Seq<char>, b: Seq<char>)
    ensures
        skeleton(a + b) == skeleton(a) + skeleton(b),
{
    Seq::filter_distributes_over_add(a, b, |c: char| !white(c) && c != ',');
}

proof fn lemma_skeleton_none(s: Seq<char>)
    requires
        forall|i: int| 0 <= i < s.len() ==> white(#[trigger] s[i]) || s[i] == ',',
    ensures
        skeleton(s) == Seq::<char>::empty(),
    decreases s.len(),
{
    reveal(Seq::filter);
    if s.len() > 0 {
        assert forall|i: int| 0 <= i < s.drop_last().len() implies white(
            #[trigger] s.drop_last()[i],
        ) || s.drop_last()[i] == ',' by {
            assert(s.drop_last()[i] == s[i]);
        }
        lemma_skeleton_none(s.drop_last());
        assert(white(s[s.len() - 1]) || s[s.len() - 1] == ',');
    }
}

proof fn lemma_skeleton_split(s: Seq<char>, i: int, j: int, k: int)
    requires
        0 <= i <= j <= k <= s.len(),
    ensures
        skeleton(s.subrange(i, k)) == skeleton(s.subrange(i, j)) + skeleton(s.subrange(j, k)),
{
    assert(s.subrange(i, k) == s.subrange(i, j) + s.subrange(j, k));
    lemma_skeleton_add(s.subrange(i, j), s.subrange(j, k));
}

proof fn lemma_skeleton_white(s: Seq<char>, i: int, j: int)
    requires
        0 <= i <= j <= s.len(),
        forall|k: int| i <= k < j ==> white(#[trigger] s[k]),
    ensures
        skeleton(s.subrange(i, j)) == Seq::<char>::empty(),
{
    assert forall|k: int| 0 <= k < s.subrange(i, j).len() implies white(
        #[trigger] s.subrange(i, j)[k],
    ) || s.subrange(i, j)[k] == ',' by {
        assert(s.subrange(i, j)[k] == s[i + k]);
    }
    lemma_skeleton_none(s.subrange(i, j));
}

proof fn lemma_trim_start(s: Seq<char>)
    ensures
        skeleton(trim_start(s)) == skeleton(s),
        trim_start(s).len() > 0 ==> !white(trim_start(s)[0]),
        exists|k: int| 0 <= k <= s.len() && trim_start(s) == #[trigger] s.skip(k),
    decreases s.len(),
{
    if s.len() > 0 && white(s[0]) {
        lemma_trim_start(s.skip(1));
        assert(s == s.take(1) + s.skip(1));
        lemma_skeleton_add(s.take(1), s.skip(1));
        assert(s.take(1) == s.subrange(0, 1));
        lemma_skeleton_white(s, 0, 1);
        assert(Seq::<char>::empty() + skeleton(s.skip(1)) == skeleton(s.skip(1)));
        let k = choose|k: int|
            0 <= k <= s.skip(1).len() && trim_start(s.skip(1)) == #[trigger] s.skip(1).skip(k);
        assert(s.skip(1).skip(k) == s.skip(k + 1));
    } else {
        assert(s == s.skip(0));
    }
}

proof fn lemma_trim_end(s: Seq<char>)
    ensures
        skeleton(trim_end(s)) == skeleton(s),
        trim_end(s).len() > 0 ==> !white(trim_end(s).last()) && trim_end(s)[0] == s[0],
        exists|k: int| 0 <= k <= s.len() && trim_end(s) == #[trigger] s.take(k),
    decreases s.len(),
{
    if s.len() > 0 && white(s.last()) {
        lemma_trim_end(s.drop_last());
        let n = s.len() as int;
        assert(s == s.drop_last() + s.subrange(n - 1, n));
        lemma_skeleton_add(s.drop_last(), s.subrange(n - 1, n));
        assert(s[n - 1] == s.last());
        lemma_skeleton_white(s, n - 1, n);
        assert(skeleton(s.drop_last()) + Seq::<char>::empty() == skeleton(s.drop_last()));
        let k = choose|k: int|
            0 <= k <= s.drop_last().len() && trim_end(s.drop_last()) == #[trigger] s.drop_last().take(
                k,
            );
        assert(s.drop_last().take(k) == s.take(k));
    } else {
        assert(s == s.take(s.len() as int));
    }
}

/// Trimming keeps the skeleton, leaves nothing or a neat text, and gives a
/// stretch of the text.
pub proof fn lemma_trim(s: Seq<char>)
    ensures
        skeleton(trim(s)) == skeleton(s),
        trim(s).len() > 0 ==> neat(trim(s)),
        forall|i: int| 0 <= i < trim(s).len() ==> s.contains(#[trigger] trim(s)[i]),
        trim(s).len() <= s.len(),
        run_of(trim(s), s),
{
    lemma_trim_start(s);
    let a = trim_start(s);
    lemma_trim_end(a);
    let j = choose|k: int| 0 <= k <= s.len() && trim_start(s) == #[trigger] s.skip(k);
    let k = choose|k: int| 0 <= k <= a.len() && trim_end(a) == #[trigger] a.take(k);
    assert forall|i: int| 0 <= i < trim(s).len() implies s.contains(#[trigger] trim(s)[i]) by {
        assert(trim(s)[i] == s[j + i]);
    }
    assert(trim(s) == s.subrange(j, j + k));
}

proof fn lemma_spoken_add(a: Seq<Seq<char>>, b: Seq<Seq<char>>)
    ensures
        spoken(a + b) == spoken(a) + spoken(b),
{
    lemma_flatten_concat(a, b);
    lemma_skeleton_add(a.flatten(), b.flatten());
}

proof fn lemma_spoken_one(s: Seq<char>)
    ensures
        spoken(seq![s]) == skeleton(s),
{
    assert(seq![s].flatten() == s) by {
        seq![s].lemma_flatten_one_element();
        assert(seq![s].first() == s);
    }
}

proof fn lemma_spoken_none()
    ensures
        spoken(Seq::<Seq<char>>::empty()) == Seq::<char>::empty(),
{
    assert(Seq::<Seq<char>>::empty().flatten() == Seq::<char>::empty());
    lemma_skeleton_none(Seq::<char>::empty());
}

// ---------------------------------------------------------------------------
// The ways to split
// ---------------------------------------------------------------------------

proof fn lemma_words(s: Seq<char>, i: int)
    requires
        0 <= i <= s.len(),
    ensures
        spoken(words_from(s, i)) == skeleton(s.subrange(i, s.len() as int)),
        forall|k: int|
            #![trigger words_from(s, i)[k]]
            0 <= k < words_from(s, i).len() ==> {
                let w = words_from(s, i)[k];
                &&& neat(w)
                &&& forall|j: int| 0 <= j < w.len() ==> !white(#[trigger] w[j])
            },
    decreases s.len() - i,
{
    let n = s.len() as int;
    let a = white_end(s, i);
    let b = word_end(s, a);
    lemma_white_end(s, i);
    lemma_word_end(s, a);
    lemma_skeleton_split(s, i, a, n);
    lemma_skeleton_white(s, i, a);
    if a < n {
        lemma_words(s, b);
        let w = s.subrange(a, b);
        let rest = words_from(s, b);
        lemma_spoken_add(seq![w], rest);
        lemma_spoken_one(w);
        lemma_skeleton_split(s, a, b, n);
        assert(Seq::<char>::empty() + skeleton(s.subrange(a, n)) == skeleton(s.subrange(a, n)));
        assert forall|j: int| 0 <= j < w.len() implies !white(#[trigger] w[j]) by {
            assert(w[j] == s[a + j]);
        }
        assert(w[0] == s[a] && w.last() == s[b - 1]);
        assert forall|k: int|
            #![trigger words_from(s, i)[k]]
            0 <= k < words_from(s, i).len() implies {
            let w = words_from(s, i)[k];
            &&& neat(w)
            &&& forall|j: int| 0 <= j < w.len() ==> !white(#[trigger] w[j])
        } by {
            if k > 0 {
                assert(words_from(s, i)[k] == rest[k - 1]);
            }
        }
    } else {
        assert(s.subrange(a, n) == Seq::<char>::empty());
        lemma_skeleton_none(Seq::<char>::empty());
        lemma_spoken_none();
    }
}

proof fn lemma_split(s: Seq<char>, i: int)
    requires
        0 <= i <= s.len(),
    ensures
        spoken(split_from(s, ',', i)) == skeleton(s.subrange(i, s.len() as int)),
    decreases s.len() - i,
{
    let n = s.len() as int;
    let k = find_from(s, ',', i);
    lemma_find_from(s, ',', i);
    if k < n {
        lemma_split(s, k + 1);
        let p = s.subrange(i, k);
        let rest = split_from(s, ',', k + 1);
        lemma_spoken_add(seq![p], rest);
        lemma_spoken_one(p);
        lemma_skeleton_split(s, i, k, n);
        lemma_skeleton_split(s, k, k + 1, n);
        assert(s.subrange(k, k + 1) == seq![',']);
        lemma_skeleton_none(seq![',']);
        assert(Seq::<char>::empty() + skeleton(s.subrange(k + 1, n)) == skeleton(
            s.subrange(k + 1, n),
        ));
    } else {
        lemma_spoken_one(s.subrange(i, n));
    }
}

proof fn lemma_sentences_from(s: Seq<char>, k: int, start: int)
    requires
        0 <= k <= stops_from(s, 0).len(),
        0 <= start <= s.len(),
        k > 0 ==> start <= stops_from(s, 0)[k - 1].1,
        k == 0 ==> start == 0,
    ensures
        spoken(sentences_from(s, stops_from(s, 0), k, start)) == skeleton(
            s.subrange(start, s.len() as int),
        ),
    decreases stops_from(s, 0).len() - k,
{
    let n = s.len() as int;
    let stops = stops_from(s, 0);
    lemma_stops(s, 0);
    if k < stops.len() {
        let e = stops[k].1;
        assert(start <= e) by {
            if k > 0 {
                assert(stops[k - 1].1 <= stops[k].0);
            }
        }
        lemma_sentences_from(s, k + 1, e);
        lemma_sentences_from(s, k + 1, start);
        lemma_spoken_add(seq![s.subrange(start, e)], sentences_from(s, stops, k + 1, e));
        lemma_spoken_one(s.subrange(start, e));
        lemma_skeleton_split(s, start, e, n);
    } else if start < n {
        lemma_spoken_one(s.subrange(start, n));
    } else {
        assert(s.subrange(start, n) == Seq::<char>::empty());
        lemma_skeleton_none(Seq::<char>::empty());
        lemma_spoken_none();
    }
}

proof fn lemma_sentences(s: Seq<char>)
    ensures
        spoken(sentences(s)) == skeleton(s),
{
    assert(s == s.subrange(0, s.len() as int));
    if stops_from(s, 0).len() == 0 {
        lemma_spoken_one(s);
    } else {
        lemma_sentences_from(s, 0, 0);
    }
}

proof fn lemma_last_line_feed(s: Seq<char>, lo: int, hi: int)
    requires
        lo <= hi,
    ensures
        lo - 1 <= last_line_feed(s, lo, hi) < hi || (lo == hi && last_line_feed(s, lo, hi) == hi - 1),
    decreases hi - lo,
{
    if lo < hi && s[hi - 1] != '\n' {
        lemma_last_line_feed(s, lo, hi - 1);
    }
}

/// A paragraph break is white space within the text.
proof fn lemma_break_end(s: Seq<char>, i: int)
    requires
        0 <= i <= s.len(),
    ensures
        i <= break_end(s, i) <= s.len(),
        forall|k: int| i <= k < break_end(s, i) ==> white(#[trigger] s[k]),
{
    if i < s.len() && s[i] == '\n' {
        lemma_white_end(s, i + 1);
        lemma_last_line_feed(s, i + 1, white_end(s, i + 1));
    }
}

proof fn lemma_next_break(s: Seq<char>, i: int)
    requires
        0 <= i <= s.len(),
    ensures
        i <= next_break(s, i) <= s.len(),
        next_break(s, i) < s.len() ==> break_end(s, next_break(s, i)) > next_break(s, i),
    decreases s.len() - i,
{
    if i < s.len() && !(break_end(s, i) > i) {
        lemma_next_break(s, i + 1);
    }
}

proof fn lemma_paragraphs(s: Seq<char>, i: int)
    requires
        0 <= i <= s.len(),
    ensures
        spoken(paragraphs_from(s, i)) == skeleton(s.subrange(i, s.len() as int)),
    decreases s.len() - i,
{
    let n = s.len() as int;
    let k = next_break(s, i);
    let e = break_end(s, k);
    lemma_next_break(s, i);
    lemma_break_end(s, k);
    if k < n {
        lemma_paragraphs(s, e);
        lemma_spoken_add(seq![s.subrange(i, k)], paragraphs_from(s, e));
        lemma_spoken_one(s.subrange(i, k));
        lemma_skeleton_split(s, i, k, n);
        lemma_skeleton_split(s, k, e, n);
        lemma_skeleton_white(s, k, e);
        assert(Seq::<char>::empty() + skeleton(s.subrange(e, n)) == skeleton(s.subrange(e, n)));
    } else {
        lemma_spoken_one(s.subrange(i, n));
    }
}

/// Trimming the pieces of a list and dropping the blank ones keeps the skeleton;
/// what is left is neat.
pub proof fn lemma_trimmed(list: Seq<Seq<char>>)
    ensures
        spoken(trimmed(list)) == spoken(list),
        forall|k: int| 0 <= k < trimmed(list).len() ==> neat(#[trigger] trimmed(list)[k]),
    decreases list.len(),
{
    reveal(Seq::filter);
    let f = |p: Seq<char>| trim(p);
    if list.len() == 0 {
        assert(trimmed(list) == Seq::<Seq<char>>::empty());
        assert(list == Seq::<Seq<char>>::empty());
    } else {
        let front = list.drop_last();
        lemma_trimmed(front);
        assert(list.map_values(f).drop_last() == front.map_values(f));
        assert(list.map_values(f).last() == trim(list.last()));
        lemma_trim(list.last());
        assert(list == front + seq![list.last()]);
        lemma_spoken_add(front, seq![list.last()]);
        lemma_spoken_one(list.last());
        if trim(list.last()).len() > 0 {
            assert(trimmed(list) == trimmed(front).push(trim(list.last())));
            assert(trimmed(list) == trimmed(front) + seq![trim(list.last())]);
            lemma_spoken_add(trimmed(front), seq![trim(list.last())]);
            lemma_spoken_one(trim(list.last()));
        } else {
            assert(trimmed(list) == trimmed(front));
            assert(trim(list.last()) == Seq::<char>::empty());
            lemma_skeleton_none(Seq::<char>::empty());
            assert(spoken(front) + Seq::<char>::empty() == spoken(front));
        }
        assert forall|k: int| 0 <= k < trimmed(list).len() implies neat(
            #[trigger] trimmed(list)[k],
        ) by {
            if k < trimmed(front).len() {
                assert(trimmed(list)[k] == trimmed(front)[k]);
            }
        }
    }
}

// ---------------------------------------------------------------------------
// Packing
// ---------------------------------------------------------------------------

proof fn lemma_pack_spoken(
    list: Seq<Seq<char>>,
    sep: Seq<char>,
    max: int,
    refine: spec_fn(Seq<char>) -> Seq<Seq<char>>,
    cur: Seq<char>,
)
    requires
        skeleton(sep) == Seq::<char>::empty(),
        forall|p: Seq<char>| spoken(#[trigger] refine(p)) == skeleton(p),
    ensures
        spoken(pack(list, sep, max, refine, cur)) == skeleton(cur) + spoken(list),
    decreases list.len(),
{
    let none = Seq::<char>::empty();
    lemma_skeleton_none(none);
    lemma_spoken_none();
    lemma_spoken_one(cur);
    assert(spoken(flushed(cur)) == skeleton(cur)) by {
        if cur.len() == 0 {
            assert(cur == none);
        }
    }
    if list.len() == 0 {
        assert(list == Seq::<Seq<char>>::empty());
        assert(skeleton(cur) + none == skeleton(cur));
    } else {
        let p = list[0];
        let rest = list.skip(1);
        assert(list == seq![p] + rest);
        lemma_spoken_add(seq![p], rest);
        lemma_spoken_one(p);
        lemma_pack_spoken(rest, sep, max, refine, none);
        lemma_pack_spoken(rest, sep, max, refine, p);
        lemma_pack_spoken(rest, sep, max, refine, cur + sep + p);
        if p.len() > max {
            lemma_spoken_add(flushed(cur), refine(p));
            lemma_spoken_add(flushed(cur) + refine(p), pack(rest, sep, max, refine, none));
            assert(none + spoken(rest) == spoken(rest));
            assert(skeleton(cur) + skeleton(p) + spoken(rest) == skeleton(cur) + (skeleton(p)
                + spoken(rest)));
        } else if cur.len() == 0 {
            assert(cur == none);
            assert(none + (skeleton(p) + spoken(rest)) == skeleton(p) + spoken(rest));
        } else if cur.len() + sep.len() + p.len() > max {
            lemma_spoken_add(seq![cur], pack(rest, sep, max, refine, p));
        } else {
            lemma_skeleton_add(cur, sep);
            lemma_skeleton_add(cur + sep, p);
            assert(skeleton(cur) + none == skeleton(cur));
            assert(skeleton(cur) + skeleton(p) + spoken(rest) == skeleton(cur) + (skeleton(p)
                + spoken(rest)));
        }
    }
}

proof fn lemma_pack_sound(
    list: Seq<Seq<char>>,
    sep: Seq<char>,
    max: int,
    refine: spec_fn(Seq<char>) -> Seq<Seq<char>>,
    cur: Seq<char>,
)
    requires
        cur.len() == 0 || (neat(cur) && cur.len() <= max),
        forall|k: int| 0 <= k < list.len() ==> neat(#[trigger] list[k]),
        forall|k: int|
            0 <= k < list.len() && (#[trigger] list[k]).len() > max ==> all_sound(
                refine(list[k]),
                max,
            ),
    ensures
        all_sound(pack(list, sep, max, refine, cur), max),
    decreases list.len(),
{
    if list.len() > 0 {
        let p = list[0];
        let rest = list.skip(1);
        assert(neat(p));
        assert forall|k: int| 0 <= k < rest.len() implies neat(#[trigger] rest[k]) by {
            assert(rest[k] == list[k + 1]);
        }
        assert forall|k: int| 0 <= k < rest.len() && (#[trigger] rest[k]).len() > max implies
            all_sound(refine(rest[k]), max) by {
            assert(rest[k] == list[k + 1]);
        }
        if p.len() > max {
            lemma_pack_sound(rest, sep, max, refine, seq![]);
            let tail = pack(rest, sep, max, refine, seq![]);
            let found = refine(p);
            let whole = flushed(cur) + found + tail;
            assert forall|k: int| 0 <= k < whole.len() implies sound(#[trigger] whole[k], max) by {
                let a = flushed(cur).len() as int;
                let b = a + found.len();
                if k < a {
                    assert(whole[k] == cur);
                } else if k < b {
                    assert(whole[k] == found[k - a]);
                } else {
                    assert(whole[k] == tail[k - b]);
                }
            }
        } else if cur.len() == 0 {
            lemma_pack_sound(rest, sep, max, refine, p);
        } else if cur.len() + sep.len() + p.len() > max {
            lemma_pack_sound(rest, sep, max, refine, p);
            let tail = pack(rest, sep, max, refine, p);
            let whole = seq![cur] + tail;
            assert forall|k: int| 0 <= k < whole.len() implies sound(#[trigger] whole[k], max) by {
                if k > 0 {
                    assert(whole[k] == tail[k - 1]);
                }
            }
        } else {
            assert((cur + sep + p)[0] == cur[0]);
            assert((cur + sep + p).last() == p.last());
            lemma_pack_sound(rest, sep, max, refine, cur + sep + p);
        }
    }
}

/// Words are neat.
pub proof fn lemma_words_neat(s: Seq<char>)
    ensures
        forall|k: int| 0 <= k < words(s).len() ==> neat(#[trigger] words(s)[k]),
{
    lemma_words(s, 0);
    assert forall|k: int| 0 <= k < words(s).len() implies neat(#[trigger] words(s)[k]) by {
        assert(words(s)[k] == words_from(s, 0)[k]);
    }
}

/// The pieces of a word are sound and hold its characters.
proof fn lemma_cut(w: Seq<char>, max: int)
    ensures
        spoken(cut(w, max)) == skeleton(w),
        w.len() > 0 && (forall|j: int| 0 <= j < w.len() ==> !white(#[trigger] w[j])) ==> all_sound(
            cut(w, max),
            max,
        ),
    decreases w.len(),
{
    if max <= 0 || w.len() <= max {
        lemma_spoken_one(w);
    } else {
        let head = w.take(max);
        let rest = w.skip(max);
        lemma_cut(rest, max);
        lemma_spoken_one(head);
        lemma_spoken_add(seq![head], cut(rest, max));
        assert(head + rest == w);
        lemma_skeleton_add(head, rest);
        if forall|j: int| 0 <= j < w.len() ==> !white(#[trigger] w[j]) {
            assert forall|j: int| 0 <= j < rest.len() implies !white(#[trigger] rest[j]) by {
                assert(rest[j] == w[max + j]);
            }
            let whole = seq![head] + cut(rest, max);
            assert forall|k: int| 0 <= k < whole.len() implies sound(#[trigger] whole[k], max) by {
                if k > 0 {
                    assert(whole[k] == cut(rest, max)[k - 1]);
                } else {
                    assert(head[0] == w[0] && head.last() == w[max - 1]);
                }
            }
        }
    }
}

proof fn lemma_by_words(s: Seq<char>, max: int)
    ensures
        spoken(by_words(s, max)) == skeleton(s),
        all_sound(by_words(s, max), max),
{
    let refine = |w: Seq<char>| cut(w, max);
    reveal_strlit(" ");
    lemma_skeleton_none(" "@);
    assert forall|p: Seq<char>| spoken(#[trigger] refine(p)) == skeleton(p) by {
        lemma_cut(p, max);
    }
    lemma_pack_spoken(words(s), " "@, max, refine, seq![]);
    lemma_words(s, 0);
    lemma_skeleton_none(Seq::<char>::empty());
    assert(s.subrange(0, s.len() as int) == s);
    assert(Seq::<char>::empty() + skeleton(s) == skeleton(s));
    let list = words(s);
    assert forall|k: int| 0 <= k < list.len() && (#[trigger] list[k]).len() > max implies all_sound(
        refine(list[k]),
        max,
    ) by {
        assert(list[k] == words_from(s, 0)[k]);
        lemma_cut(list[k], max);
    }
    assert forall|k: int| 0 <= k < list.len() implies neat(#[trigger] list[k]) by {
        assert(list[k] == words_from(s, 0)[k]);
    }
    lemma_pack_sound(list, " "@, max, refine, seq![]);
}

proof fn lemma_by_commas(s: Seq<char>, max: int)
    ensures
        spoken(by_commas(s, max)) == skeleton(s),
        all_sound(by_commas(s, max), max),
{
    let refine = |p: Seq<char>| by_words(p, max);
    let list = trimmed(split_on(s, ','));
    reveal_strlit(", ");
    lemma_skeleton_none(", "@);
    assert forall|p: Seq<char>| spoken(#[trigger] refine(p)) == skeleton(p) by {
        lemma_by_words(p, max);
    }
    lemma_pack_spoken(list, ", "@, max, refine, seq![]);
    lemma_trimmed(split_on(s, ','));
    lemma_split(s, 0);
    lemma_skeleton_none(Seq::<char>::empty());
    assert(s.subrange(0, s.len() as int) == s);
    assert(Seq::<char>::empty() + skeleton(s) == skeleton(s));
    assert forall|k: int| 0 <= k < list.len() && (#[trigger] list[k]).len() > max implies all_sound(
        refine(list[k]),
        max,
    ) by {
        lemma_by_words(list[k], max);
    }
    lemma_pack_sound(list, ", "@, max, refine, seq![]);
}

proof fn lemma_by_sentences(s: Seq<char>, max: int)
    ensures
        spoken(by_sentences(s, max)) == skeleton(s),
        all_sound(by_sentences(s, max), max),
{
    let refine = |p: Seq<char>| by_commas(p, max);
    let list = trimmed(sentences(s));
    reveal_strlit(" ");
    lemma_skeleton_none(" "@);
    assert forall|p: Seq<char>| spoken(#[trigger] refine(p)) == skeleton(p) by {
        lemma_by_commas(p, max);
    }
    lemma_pack_spoken(list, " "@, max, refine, seq![]);
    lemma_trimmed(sentences(s));
    lemma_sentences(s);
    lemma_skeleton_none(Seq::<char>::empty());
    assert(Seq::<char>::empty() + skeleton(s) == skeleton(s));
    assert forall|k: int| 0 <= k < list.len() && (#[trigger] list[k]).len() > max implies all_sound(
        refine(list[k]),
        max,
    ) by {
        lemma_by_commas(list[k], max);
    }
    lemma_pack_sound(list, " "@, max, refine, seq![]);
}

proof fn lemma_list_chunks(list: Seq<Seq<char>>, max: int)
    requires
        forall|k: int| 0 <= k < list.len() ==> neat(#[trigger] list[k]),
    ensures
        spoken(list_chunks(list, max)) == spoken(list),
        all_sound(list_chunks(list, max), max),
    decreases list.len(),
{
    if list.len() == 0 {
        assert(list == Seq::<Seq<char>>::empty());
    } else {
        let front = list.drop_last();
        let p = list.last();
        assert forall|k: int| 0 <= k < front.len() implies neat(#[trigger] front[k]) by {
            assert(front[k] == list[k]);
        }
        lemma_list_chunks(front, max);
        assert(neat(list[list.len() - 1]));
        lemma_by_sentences(p, max);
        lemma_spoken_one(p);
        lemma_spoken_add(list_chunks(front, max), paragraph_chunks(p, max));
        assert(list == front + seq![p]);
        lemma_spoken_add(front, seq![p]);
        let whole = list_chunks(list, max);
        let n = list_chunks(front, max).len() as int;
        assert forall|k: int| 0 <= k < whole.len() implies sound(#[trigger] whole[k], max) by {
            if k < n {
                assert(whole[k] == list_chunks(front, max)[k]);
            } else {
                assert(whole[k] == paragraph_chunks(p, max)[k - n]);
            }
        }
    }
}

proof fn lemma_chunks(text: Seq<char>, max: int)
    ensures
        spoken(chunks(text, max)) == skeleton(text),
        chunks(text, max) == seq![Seq::<char>::empty()] || all_sound(chunks(text, max), max),
{
    let body = trim(text);
    let list = trimmed(paragraphs(body));
    let found = list_chunks(list, max);
    lemma_trim(text);
    lemma_paragraphs(body, 0);
    lemma_trimmed(paragraphs(body));
    lemma_list_chunks(list, max);
    assert(body.subrange(0, body.len() as int) == body);
    assert(spoken(found) == skeleton(text));
    if body.len() == 0 || found.len() == 0 {
        lemma_spoken_one(Seq::<char>::empty());
        lemma_skeleton_none(Seq::<char>::empty());
        lemma_spoken_none();
        if body.len() == 0 {
            assert(body == Seq::<char>::empty());
        } else {
            assert(found == Seq::<Seq<char>>::empty());
        }
    }
}

// ---------------------------------------------------------------------------
// Laws
// ---------------------------------------------------------------------------

/// Chunking loses no text: but for white space and commas, the chunks one after
/// the other hold the characters of the text, in order.
pub proof fn law_chunks_keep_text(text: Seq<char>, max: int)
    ensures
        spoken(chunks(text, max)) == skeleton(text),
{
    lemma_chunks(text, max);
}

/// Every chunk is at most `max` characters long, where there is room for any.
pub proof fn law_chunk_length(text: Seq<char>, max: int)
    requires
        max > 0,
    ensures
        forall|k: int|
            0 <= k < chunks(text, max).len() ==> (#[trigger] chunks(text, max)[k]).len() <= max,
{
    lemma_chunks(text, max);
    if chunks(text, max) != seq![Seq::<char>::empty()] {
        assert forall|k: int| 0 <= k < chunks(text, max).len() implies (#[trigger] chunks(
            text,
            max,
        )[k]).len() <= max by {
            assert(sound(chunks(text, max)[k], max));
        }
    }
}

/// A text gives at least one chunk. Either there is nothing to say, and it gives
/// a single empty one, or no chunk is empty or has white space at an end.
pub proof fn law_chunks_neat(text: Seq<char>, max: int)
    ensures
        chunks(text, max).len() > 0,
        ({
            ||| chunks(text, max) == seq![Seq::<char>::empty()] && skeleton(text).len() == 0
            ||| forall|k: int|
                0 <= k < chunks(text, max).len() ==> neat(#[trigger] chunks(text, max)[k])
        }),
{
    lemma_chunks(text, max);
    if chunks(text, max) == seq![Seq::<char>::empty()] {
        lemma_spoken_one(Seq::<char>::empty());
        lemma_skeleton_none(Seq::<char>::empty());
    } else {
        assert forall|k: int| 0 <= k < chunks(text, max).len() implies neat(
            #[trigger] chunks(text, max)[k],
        ) by {
            assert(sound(chunks(text, max)[k], max));
        }
    }
}

/// A text that holds no paragraph break and is short enough passes through, but
/// for the white space around it.
pub proof fn law_short_text_passes(text: Seq<char>, max: int)
    requires
        0 < trim(text).len() <= max,
        next_break(trim(text), 0) == trim(text).len(),
    ensures
        chunks(text, max) == seq![trim(text)],
{
    let body = trim(text);
    lemma_trim(text);
    assert(paragraphs(body) == seq![body.subrange(0, body.len() as int)]);
    assert(body.subrange(0, body.len() as int) == body);
    reveal_with_fuel(trim_start, 2);
    reveal_with_fuel(trim_end, 2);
    assert(trim(body) == body);
    let f = |p: Seq<char>| trim(p);
    assert(trimmed(seq![body]) == seq![body]) by {
        reveal(Seq::filter);
        let m = seq![body].map_values(f);
        assert(m == seq![body]);
        assert(m.drop_last() == Seq::<Seq<char>>::empty());
        assert(m.drop_last().filter(|p: Seq<char>| p.len() > 0) == Seq::<Seq<char>>::empty());
        assert(m.last() == body);
        assert(Seq::<Seq<char>>::empty().push(body) == seq![body]);
    }
    assert(seq![body].drop_last() == Seq::<Seq<char>>::empty());
    assert(list_chunks(seq![body].drop_last(), max) == Seq::<Seq<char>>::empty());
    assert(list_chunks(seq![body], max) == Seq::<Seq<char>>::empty() + seq![body]);
    assert(Seq::<Seq<char>>::empty() + seq![body] == seq![body]);
}

} // verus!
