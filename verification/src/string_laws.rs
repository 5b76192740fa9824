//! What holds of trimming and splitting text.

use vstd::prelude::*;

use crate::strings::{
    find_from, split_from, split_on, trim, trim_end, trim_start, white, white_end, word_end, words,
    words_from,
};

verus! {

/// Whether all of a text is white space.
pub open spec fn blank(s: Seq<char>) -> bool {
    forall|k: int| 0 <= k < s.len() ==> white(#[trigger] s[k])
}

/// Whether none of a text is white space.
pub open spec fn unspaced(s: Seq<char>) -> bool {
    forall|k: int| 0 <= k < s.len() ==> !white(#[trigger] s[k])
}

/// White space is the tab and the controls after it, the space, and the spaces of Unicode.
pub proof fn law_white_space(c: char)
    ensures
        white(c) <==> ({
            let n = c as u32;
            ||| 9 <= n <= 13
            ||| n == 32
            ||| n == 133
            ||| n == 160
            ||| n == 5760
            ||| 8192 <= n <= 8202
            ||| n == 8232
            ||| n == 8233
            ||| n == 8239
            ||| n == 8287
            ||| n == 12288
        }),
{
}

proof fn lemma_trim_start_run(a: Seq<char>, t: Seq<char>)
    requires
        blank(a),
        t.len() == 0 || !white(t[0]),
    ensures
        trim_start(a + t) == t,
    decreases a.len(),
{
    let s = a + t;
    if a.len() == 0 {
        assert(s == t);
    } else {
        assert(s[0] == a[0]);
        assert(s.skip(1) == a.skip(1) + t);
        lemma_trim_start_run(a.skip(1), t);
    }
}

proof fn lemma_trim_end_run(t: Seq<char>, b: Seq<char>)
    requires
        blank(b),
        t.len() == 0 || !white(t.last()),
    ensures
        trim_end(t + b) == t,
    decreases b.len(),
{
    let s = t + b;
    if b.len() == 0 {
        assert(s == t);
    } else {
        assert(s.last() == b[b.len() - 1]);
        assert(s.drop_last() == t + b.drop_last());
        lemma_trim_end_run(t, b.drop_last());
    }
}

/// Trimming takes the white space off both ends, and nothing else.
pub proof fn law_trim(a: Seq<char>, t: Seq<char>, b: Seq<char>)
    requires
        blank(a),
        blank(b),
        t.len() == 0 || (!white(t[0]) && !white(t.last())),
    ensures
        trim(a + t + b) == t,
{
    if t.len() == 0 {
        let none = Seq::<char>::empty();
        let all = a + t + b;
        assert(blank(all)) by {
            assert forall|k: int| 0 <= k < all.len() implies white(#[trigger] all[k]) by {
                if k < a.len() {
                    assert(all[k] == a[k]);
                } else {
                    assert(all[k] == b[k - a.len()]);
                }
            }
        }
        assert(all == all + none);
        lemma_trim_start_run(all, none);
        lemma_trim_end_run(none, none);
        assert(none + none == none);
        assert(t == none);
    } else {
        assert(a + t + b == a + (t + b));
        assert((t + b)[0] == t[0]);
        lemma_trim_start_run(a, t + b);
        lemma_trim_end_run(t, b);
    }
}

// ---------------------------------------------------------------------------
// Words
// ---------------------------------------------------------------------------

/// The end of a run of white space.
pub proof fn lemma_white_run(s: Seq<char>, i: int, e: int)
    requires
        0 <= i <= e <= s.len(),
        forall|k: int| i <= k < e ==> white(#[trigger] s[k]),
        e == s.len() || !white(s[e]),
    ensures
        white_end(s, i) == e,
    decreases e - i,
{
    if i < e {
        lemma_white_run(s, i + 1, e);
    }
}

proof fn lemma_word_run(s: Seq<char>, i: int, e: int)
    requires
        0 <= i <= e <= s.len(),
        forall|k: int| i <= k < e ==> !white(#[trigger] s[k]),
        e == s.len() || white(s[e]),
    ensures
        word_end(s, i) == e,
    decreases e - i,
{
    if i < e {
        lemma_word_run(s, i + 1, e);
    }
}

/// The end of a run of white space in the second of two texts.
pub proof fn lemma_white_end_back(x: Seq<char>, y: Seq<char>, j: int)
    requires
        0 <= j <= y.len(),
    ensures
        white_end(x + y, x.len() + j) == x.len() + white_end(y, j),
        j <= white_end(y, j) <= y.len(),
    decreases y.len() - j,
{
    if j < y.len() {
        assert((x + y)[x.len() + j] == y[j]);
        if white(y[j]) {
            lemma_white_end_back(x, y, j + 1);
        }
    }
}

proof fn lemma_word_end_back(x: Seq<char>, y: Seq<char>, j: int)
    requires
        0 <= j <= y.len(),
    ensures
        word_end(x + y, x.len() + j) == x.len() + word_end(y, j),
        j <= word_end(y, j) <= y.len(),
    decreases y.len() - j,
{
    if j < y.len() {
        assert((x + y)[x.len() + j] == y[j]);
        if !white(y[j]) {
            lemma_word_end_back(x, y, j + 1);
        }
    }
}

proof fn lemma_words_back(x: Seq<char>, y: Seq<char>, j: int)
    requires
        0 <= j <= y.len(),
    ensures
        words_from(x + y, x.len() + j) == words_from(y, j),
    decreases y.len() - j,
{
    lemma_white_end_back(x, y, j);
    let a = white_end(y, j);
    lemma_word_end_back(x, y, a);
    let b = word_end(y, a);
    if a < b {
        assert((x + y).subrange(x.len() + a, x.len() + b) == y.subrange(a, b));
        lemma_words_back(x, y, b);
    }
}

/// A blank text has no words; another has its first word, up to the white space behind it,
/// and then the words of the rest.
pub proof fn law_words(r: Seq<char>, w: Seq<char>, rest: Seq<char>)
    requires
        blank(r),
        w.len() > 0,
        unspaced(w),
        rest.len() == 0 || white(rest[0]),
    ensures
        words(r) == Seq::<Seq<char>>::empty(),
        words(r + w + rest) == seq![w] + words(rest),
{
    lemma_white_run(r, 0, r.len() as int);
    lemma_word_run(r, r.len() as int, r.len() as int);
    let s = r + w + rest;
    let a = r.len() as int;
    let b = a + w.len();
    assert forall|k: int| 0 <= k < a implies white(#[trigger] s[k]) by {
        assert(s[k] == r[k]);
    }
    assert(s[a] == w[0]);
    lemma_white_run(s, 0, a);
    assert forall|k: int| a <= k < b implies !white(#[trigger] s[k]) by {
        assert(s[k] == w[k - a]);
    }
    assert(b < s.len() ==> s[b] == rest[0]);
    lemma_word_run(s, a, b);
    assert(s.subrange(a, b) == w);
    lemma_words_back(r + w, rest, 0);
}

// ---------------------------------------------------------------------------
// Parts
// ---------------------------------------------------------------------------

proof fn lemma_find_run(s: Seq<char>, c: char, i: int, e: int)
    requires
        0 <= i <= e <= s.len(),
        forall|k: int| i <= k < e ==> #[trigger] s[k] != c,
        e == s.len() || s[e] == c,
    ensures
        find_from(s, c, i) == e,
    decreases e - i,
{
    if i < e {
        lemma_find_run(s, c, i + 1, e);
    }
}

proof fn lemma_find_back(x: Seq<char>, y: Seq<char>, c: char, j: int)
    requires
        0 <= j <= y.len(),
    ensures
        find_from(x + y, c, x.len() + j) == x.len() + find_from(y, c, j),
        j <= find_from(y, c, j) <= y.len(),
    decreases y.len() - j,
{
    if j < y.len() {
        assert((x + y)[x.len() + j] == y[j]);
        if y[j] != c {
            lemma_find_back(x, y, c, j + 1);
        }
    }
}

proof fn lemma_split_back(x: Seq<char>, y: Seq<char>, c: char, j: int)
    requires
        0 <= j <= y.len(),
    ensures
        split_from(x + y, c, x.len() + j) == split_from(y, c, j),
    decreases y.len() - j,
{
    lemma_find_back(x, y, c, j);
    let k = find_from(y, c, j);
    assert((x + y).subrange(x.len() + j, x.len() + k) == y.subrange(j, k));
    if k < y.len() {
        lemma_split_back(x, y, c, k + 1);
    } else {
        assert((x + y).subrange(x.len() + j, (x + y).len() as int) == y.subrange(
            j,
            y.len() as int,
        ));
    }
}

/// A text without the separator is one part; another has what stands before the first, and
/// then the parts of what stands behind it.
pub proof fn law_split(p: Seq<char>, c: char, rest: Seq<char>)
    requires
        !p.contains(c),
    ensures
        split_on(p, c) == seq![p],
        split_on(p + seq![c] + rest, c) == seq![p] + split_on(rest, c),
{
    let n = p.len() as int;
    assert forall|k: int| 0 <= k < n implies #[trigger] p[k] != c by {
        if p[k] == c {
            assert(p.contains(c));
        }
    }
    lemma_find_run(p, c, 0, n);
    assert(p.subrange(0, n) == p);
    let s = p + seq![c] + rest;
    assert forall|k: int| 0 <= k < n implies #[trigger] s[k] != c by {
        assert(s[k] == p[k]);
    }
    assert(s[n] == c);
    lemma_find_run(s, c, 0, n);
    assert(s.subrange(0, n) == p);
    lemma_split_back(p + seq![c], rest, c, 0);
}

// ---------------------------------------------------------------------------
// Two texts
// ---------------------------------------------------------------------------

/// The end of a word in the first of two texts, where white space stands behind it.
proof fn lemma_word_end_front(x: Seq<char>, y: Seq<char>, i: int)
    requires
        0 <= i <= x.len(),
        y.len() == 0 || white(y[0]),
    ensures
        word_end(x + y, i) == word_end(x, i),
        i <= word_end(x, i) <= x.len(),
    decreases x.len() - i,
{
    if i < x.len() {
        assert((x + y)[i] == x[i]);
        if !white(x[i]) {
            lemma_word_end_front(x, y, i + 1);
        }
    } else if y.len() > 0 {
        assert((x + y)[i] == y[0]);
    }
}

proof fn lemma_words_front(x: Seq<char>, y: Seq<char>, i: int)
    requires
        0 <= i <= x.len(),
        y.len() > 0,
        white(y[0]),
    ensures
        words_from(x + y, i) == words_from(x, i) + words(y),
    decreases x.len() - i,
{
    let s = x + y;
    crate::strings::lemma_white_end(x, i);
    let a = white_end(x, i);
    if a < x.len() {
        assert forall|k: int| i <= k < a implies white(#[trigger] s[k]) by {
            assert(s[k] == x[k]);
        }
        assert(s[a] == x[a]);
        lemma_white_run(s, i, a);
        lemma_word_end_front(x, y, a);
        let b = word_end(x, a);
        assert(word_end(x, a) == word_end(x, a + 1));
        lemma_word_end_front(x, y, a + 1);
        assert(b > a);
        assert(s.subrange(a, b) == x.subrange(a, b));
        lemma_words_front(x, y, b);
        assert(seq![x.subrange(a, b)] + (words_from(x, b) + words(y)) == seq![x.subrange(a, b)]
            + words_from(x, b) + words(y));
    } else {
        assert(words_from(x, i) == Seq::<Seq<char>>::empty());
        assert(words_from(x, i) + words(y) == words(y));
        lemma_words_from_blank(x, y, i);
    }
}

/// White space in front of the second text makes no difference to its words.
proof fn lemma_words_from_blank(x: Seq<char>, y: Seq<char>, i: int)
    requires
        0 <= i <= x.len(),
        white_end(x, i) == x.len(),
    ensures
        words_from(x + y, i) == words(y),
{
    let s = x + y;
    lemma_words_back(x, y, 0);
    crate::strings::lemma_white_end(x, i);
    let n = x.len() as int;
    lemma_white_end_back(x, y, 0);
    crate::strings::lemma_white_end(y, 0);
    let e = n + white_end(y, 0);
    assert forall|k: int| i <= k < e implies white(#[trigger] s[k]) by {
        if k < n {
            assert(s[k] == x[k]);
        } else {
            assert(s[k] == y[k - n]);
        }
    }
    assert(e < s.len() ==> s[e] == y[e - n]);
    lemma_white_run(s, i, e);
    lemma_white_run(s, n, e);
}

/// The words of two texts with white space between them are the words of the one and then
/// those of the other.
pub proof fn law_words_apart(x: Seq<char>, c: char, y: Seq<char>)
    requires
        white(c),
    ensures
        words(x + seq![c] + y) == words(x) + words(y),
{
    let one = seq![c];
    let z = one + y;
    assert(x + one + y == x + z);
    assert(z[0] == c);
    lemma_words_front(x, z, 0);
    assert(one[0] == c);
    lemma_white_run(one, 0, 1);
    lemma_words_from_blank(one, y, 0);
}

/// The parts of two texts with the separator between them are the parts of the one and then
/// those of the other.
pub proof fn law_split_apart(x: Seq<char>, c: char, y: Seq<char>)
    ensures
        split_on(x + seq![c] + y, c) == split_on(x, c) + split_on(y, c),
    decreases x.len(),
{
    if x.contains(c) {
        let i = choose|i: int| 0 <= i < x.len() && x[i] == c;
        let k = lemma_first_of(x, c, i);
        let p = x.take(k);
        let rest = x.skip(k + 1);
        assert(x == p + seq![c] + rest);
        assert(!p.contains(c));
        law_split(p, c, rest);
        law_split_apart(rest, c, y);
        assert(x + seq![c] + y == p + seq![c] + (rest + seq![c] + y));
        law_split(p, c, rest + seq![c] + y);
        assert(seq![p] + (split_on(rest, c) + split_on(y, c)) == seq![p] + split_on(rest, c)
            + split_on(y, c));
    } else {
        law_split(x, c, y);
    }
}

/// Where a character stands first.
proof fn lemma_first_of(x: Seq<char>, c: char, i: int) -> (k: int)
    requires
        0 <= i < x.len(),
        x[i] == c,
    ensures
        0 <= k <= i,
        x[k] == c,
        forall|j: int| 0 <= j < k ==> #[trigger] x[j] != c,
    decreases i,
{
    if exists|j: int| 0 <= j < i && #[trigger] x[j] == c {
        let j = choose|j: int| 0 <= j < i && #[trigger] x[j] == c;
        lemma_first_of(x, c, j)
    } else {
        i
    }
}

} // verus!
