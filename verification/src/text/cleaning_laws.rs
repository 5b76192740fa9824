//! What cleaning changes in a text, and what it leaves.

use vstd::prelude::*;

use crate::string_laws::{blank, lemma_white_end_back};
use crate::strings::{lemma_white_end, replace_all, trim, trim_end, trim_start, white, white_end};
use crate::text::patterns::{collapse, collapse_from, emoji};
use crate::text::preprocess::{
    clean, closed, fold, mute, plain, spelled, squeeze, tighten, tightened, unquoted,
};
use crate::text::preprocess_laws::{
    all_speakable, dropped, double_quote, lemma_plain_stays, lemma_replace_stays, long_dash, occurs,
    pictograph, single_quote, spacer, speakable,
};

verus! {

// ---------------------------------------------------------------------------
// Symbols
// ---------------------------------------------------------------------------

/// What a character stands for: nothing, where it is a pictograph or dropped; a hyphen, a
/// straight quote or a space; a word; or itself.
pub open spec fn stands_for(c: char) -> Seq<char> {
    if pictograph(c) || dropped(c) {
        seq![]
    } else if long_dash(c) {
        seq!['-']
    } else if double_quote(c) {
        seq!['"']
    } else if single_quote(c) {
        seq!['\'']
    } else if spacer(c) {
        seq![' ']
    } else if c == '@' {
        seq![' ', 'a', 't', ' ']
    } else {
        seq![c]
    }
}

proof fn lemma_plain_add(a: Seq<char>, b: Seq<char>)
    ensures
        plain(a + b) == plain(a) + plain(b),
{
    let f = |c: char| !emoji(c);
    let g = |c: char| fold(c);
    let h = |c: char| !mute(c);
    Seq::filter_distributes_over_add(a, b, f);
    let x = a.filter(f);
    let y = b.filter(f);
    assert((x + y).map_values(g) == x.map_values(g) + y.map_values(g));
    Seq::filter_distributes_over_add(x.map_values(g), y.map_values(g), h);
}

proof fn lemma_plain_one(c: char)
    ensures
        plain(seq![c]) == if emoji(c) || mute(fold(c)) {
            seq![]
        } else {
            seq![fold(c)]
        },
{
    reveal(Seq::filter);
    let f = |c: char| !emoji(c);
    let g = |c: char| fold(c);
    let h = |c: char| !mute(c);
    let s = seq![c];
    assert(s.drop_last() == Seq::<char>::empty());
    assert(s.drop_last().filter(f) == Seq::<char>::empty());
    if emoji(c) {
        assert(s.filter(f) == Seq::<char>::empty());
        assert(s.filter(f).map_values(g) == Seq::<char>::empty());
    } else {
        assert(s.filter(f) == s);
        let m = seq![fold(c)];
        assert(s.map_values(g) == m);
        assert(m.drop_last() == Seq::<char>::empty());
        assert(m.drop_last().filter(h) == Seq::<char>::empty());
        assert(m.last() == fold(c));
    }
}

proof fn lemma_plain_none()
    ensures
        plain(Seq::<char>::empty()) == Seq::<char>::empty(),
{
    reveal(Seq::filter);
    let none = Seq::<char>::empty();
    assert(none.filter(|c: char| !emoji(c)) == none);
    assert(none.map_values(|c: char| fold(c)) == none);
}

/// Replacing one character takes each part of a text by itself.
proof fn lemma_replace_char(a: Seq<char>, b: Seq<char>, from: Seq<char>, to: Seq<char>)
    requires
        from.len() == 1,
    ensures
        replace_all(a + b, from, to) == replace_all(a, from, to) + replace_all(b, from, to),
    decreases a.len(),
{
    if a.len() == 0 {
        assert(a + b == b);
        assert(replace_all(a, from, to) == Seq::<char>::empty());
        assert(Seq::<char>::empty() + replace_all(b, from, to) == replace_all(b, from, to));
    } else {
        lemma_replace_char(a.skip(1), b, from, to);
        assert((a + b).take(1) == a.take(1));
        assert((a + b).skip(1) == a.skip(1) + b);
        let r = replace_all(a.skip(1), from, to);
        let q = replace_all(b, from, to);
        assert(to + (r + q) == to + r + q);
        assert(seq![a[0]] + (r + q) == seq![a[0]] + r + q);
    }
}

/// A character reads as what it stands for: wherever it is put in its place, the clean
/// text is the same.
pub proof fn law_symbols_read_as(a: Seq<char>, c: char, b: Seq<char>)
    ensures
        clean(a + seq![c] + b) == clean(a + stands_for(c) + b),
{
    let x = stands_for(c);
    lemma_plain_add(a + seq![c], b);
    lemma_plain_add(a, seq![c]);
    lemma_plain_add(a + x, b);
    lemma_plain_add(a, x);
    lemma_plain_one(c);
    lemma_plain_none();
    if c == '@' {
        let word = seq![' ', 'a', 't', ' '];
        reveal_strlit("@");
        reveal_strlit(" at ");
        assert(" at "@ =~= word);
        assert("@"@ =~= seq!['@']);
        let at = "@"@;
        let to = " at "@;
        assert(all_speakable(word)) by {
            assert(speakable(' ') && speakable('a') && speakable('t'));
        }
        lemma_plain_stays(word);
        let pa = plain(a);
        let pb = plain(b);
        lemma_replace_char(pa + at, pb, at, to);
        lemma_replace_char(pa, at, at, to);
        lemma_replace_char(pa + word, pb, at, to);
        lemma_replace_char(pa, word, at, to);
        assert(replace_all(at, at, to) == to) by {
            assert(at.take(1) == at);
            assert(at.skip(1) == Seq::<char>::empty());
            assert(replace_all(Seq::<char>::empty(), at, to) == Seq::<char>::empty());
            assert(to + Seq::<char>::empty() == to);
        }
        assert(!occurs(word, at)) by {
            if occurs(word, at) {
                let i = choose|i: int|
                    0 <= i && i + at.len() <= word.len() && #[trigger] word.subrange(
                        i,
                        i + at.len(),
                    ) == at;
                assert(word.subrange(i, i + 1)[0] == word[i]);
            }
        }
        lemma_replace_stays(word, at, to);
        assert(seq![c] == at);
    } else if x.len() == 1 {
        lemma_plain_one(x[0]);
        assert(x == seq![x[0]]);
    } else {
        assert(x == Seq::<char>::empty());
    }
}

// ---------------------------------------------------------------------------
// Latin abbreviations
// ---------------------------------------------------------------------------

/// Replacing takes what stands before and behind `m` by itself, where `m` neither belongs
/// to an occurrence nor starts one.
proof fn lemma_replace_apart(x: Seq<char>, m: Seq<char>, y: Seq<char>, from: Seq<char>, to: Seq<char>)
    requires
        from.len() > 0,
        m.len() > 0,
        !from.contains(m[0]),
        forall|j: int|
            0 <= j < m.len() && #[trigger] m[j] == from[0] ==> exists|k: int|
                0 <= k < from.len() && j + k < m.len() && m[j + k] != #[trigger] from[k],
    ensures
        replace_all(x + m + y, from, to) == replace_all(x, from, to) + m + replace_all(
            y,
            from,
            to,
        ),
    decreases x.len() + m.len(),
{
    let s = x + m + y;
    let n = from.len() as int;
    if x.len() > 0 {
        if s.len() >= n && s.take(n) == from {
            if n > x.len() {
                assert(s.take(n)[x.len() as int] == m[0]);
                assert(from.contains(m[0]));
            }
            assert(x.take(n) == s.take(n));
            assert(s.skip(n) == x.skip(n) + m + y);
            lemma_replace_apart(x.skip(n), m, y, from, to);
            let r = replace_all(x.skip(n), from, to);
            let q = replace_all(y, from, to);
            assert(to + (r + m + q) == to + r + m + q);
        } else {
            if x.len() >= n && x.take(n) == from {
                assert(s.take(n) == x.take(n));
            }
            assert(s.skip(1) == x.skip(1) + m + y);
            lemma_replace_apart(x.skip(1), m, y, from, to);
            let r = replace_all(x.skip(1), from, to);
            let q = replace_all(y, from, to);
            assert(seq![x[0]] + (r + m + q) == seq![x[0]] + r + m + q);
            if x.len() < n {
                lemma_replace_short(x, from, to);
                lemma_replace_short(x.skip(1), from, to);
                assert(seq![x[0]] + x.skip(1) == x);
                if s.len() < n {
                    lemma_replace_short(y, from, to);
                }
            }
        }
    } else {
        assert(s == m + y);
        assert(replace_all(x, from, to) == x);
        lemma_skip_over(m, y, from, to, 0);
        assert(m.skip(0) == m);
        assert(x + m + replace_all(y, from, to) == m + replace_all(y, from, to));
    }
}

proof fn lemma_replace_short(x: Seq<char>, from: Seq<char>, to: Seq<char>)
    requires
        x.len() < from.len(),
    ensures
        replace_all(x, from, to) == x,
{
}

/// No occurrence starts in `m` from position `j` on.
proof fn lemma_skip_over(m: Seq<char>, y: Seq<char>, from: Seq<char>, to: Seq<char>, j: int)
    requires
        from.len() > 0,
        0 <= j <= m.len(),
        forall|j: int|
            0 <= j < m.len() && #[trigger] m[j] == from[0] ==> exists|k: int|
                0 <= k < from.len() && j + k < m.len() && m[j + k] != #[trigger] from[k],
    ensures
        replace_all(m.skip(j) + y, from, to) == m.skip(j) + replace_all(y, from, to),
    decreases m.len() - j,
{
    let s = m.skip(j) + y;
    let n = from.len() as int;
    if j == m.len() {
        assert(s == y);
        assert(m.skip(j) + replace_all(y, from, to) == replace_all(y, from, to));
    } else {
        lemma_skip_over(m, y, from, to, j + 1);
        assert(s.skip(1) == m.skip(j + 1) + y);
        assert(s[0] == m[j]);
        if s.len() >= n && s.take(n) == from {
            assert(s.take(n)[0] == from[0]);
            let k = choose|k: int|
                0 <= k < from.len() && j + k < m.len() && m[j + k] != #[trigger] from[k];
            assert(s.take(n)[k] == m[j + k]);
        }
        let q = replace_all(y, from, to);
        assert(seq![m[j]] + (m.skip(j + 1) + q) == m.skip(j) + q);
        if s.len() < n {
            lemma_replace_short(y, from, to);
        }
    }
}

/// An occurrence is replaced where it stands.
proof fn lemma_replace_here(x: Seq<char>, y: Seq<char>, from: Seq<char>, to: Seq<char>)
    requires
        from.len() > 0,
        forall|k: int| 0 < k < from.len() ==> #[trigger] from[k] != from[0],
    ensures
        replace_all(x + from + y, from, to) == replace_all(x, from, to) + to + replace_all(
            y,
            from,
            to,
        ),
    decreases x.len(),
{
    let s = x + from + y;
    let n = from.len() as int;
    if x.len() == 0 {
        assert(s.take(n) == from);
        assert(s.skip(n) == y);
        assert(replace_all(x, from, to) == x);
        assert(x + to + replace_all(y, from, to) == to + replace_all(y, from, to));
    } else if s.take(n) == from {
        if n > x.len() {
            assert(s.take(n)[x.len() as int] == from[0]);
        }
        assert(x.take(n) == s.take(n));
        assert(s.skip(n) == x.skip(n) + from + y);
        lemma_replace_here(x.skip(n), y, from, to);
        let r = replace_all(x.skip(n), from, to);
        let q = replace_all(y, from, to);
        assert(to + (r + to + q) == to + r + to + q);
    } else {
        if x.len() >= n && x.take(n) == from {
            assert(s.take(n) == x.take(n));
        }
        assert(s.skip(1) == x.skip(1) + from + y);
        lemma_replace_here(x.skip(1), y, from, to);
        let r = replace_all(x.skip(1), from, to);
        let q = replace_all(y, from, to);
        assert(seq![x[0]] + (r + to + q) == seq![x[0]] + r + to + q);
        if x.len() < n {
            lemma_replace_short(x, from, to);
            lemma_replace_short(x.skip(1), from, to);
            assert(seq![x[0]] + x.skip(1) == x);
        }
    }
}

/// The plain form of speakable text between two others, with the `@` in these spelled out.
proof fn lemma_between(a: Seq<char>, m: Seq<char>, b: Seq<char>)
    requires
        all_speakable(m),
    ensures
        replace_all(plain(a + m + b), "@"@, " at "@) == replace_all(plain(a), "@"@, " at "@) + m
            + replace_all(plain(b), "@"@, " at "@),
{
    reveal_strlit("@");
    let at = "@"@;
    let to = " at "@;
    lemma_plain_add(a + m, b);
    lemma_plain_add(a, m);
    lemma_plain_stays(m);
    lemma_replace_char(plain(a) + m, plain(b), at, to);
    lemma_replace_char(plain(a), m, at, to);
    assert(!occurs(m, at)) by {
        if occurs(m, at) {
            let i = choose|i: int|
                0 <= i && i + at.len() <= m.len() && #[trigger] m.subrange(i, i + at.len()) == at;
            assert(m.subrange(i, i + 1)[0] == m[i]);
            assert(speakable(m[i]));
        }
    }
    lemma_replace_stays(m, at, to);
}

proof fn lemma_words_speakable()
    ensures
        all_speakable("e.g.,"@),
        all_speakable("i.e.,"@),
        all_speakable("for example, "@),
        all_speakable("that is, "@),
{
    reveal_strlit("e.g.,");
    reveal_strlit("i.e.,");
    reveal_strlit("for example, ");
    reveal_strlit("that is, ");
}

/// `e.g.,` reads as `for example, ` and `i.e.,` as `that is, `, wherever they stand.
pub proof fn law_latin_reads_as(a: Seq<char>, b: Seq<char>)
    ensures
        clean(a + "e.g.,"@ + b) == clean(a + "for example, "@ + b),
        clean(a + "i.e.,"@ + b) == clean(a + "that is, "@ + b),
{
    reveal_strlit("e.g.,");
    reveal_strlit("i.e.,");
    reveal_strlit("for example, ");
    reveal_strlit("that is, ");
    lemma_words_speakable();
    let eg = "e.g.,"@;
    let ie = "i.e.,"@;
    let fe = "for example, "@;
    let ti = "that is, "@;
    let x = replace_all(plain(a), "@"@, " at "@);
    let y = replace_all(plain(b), "@"@, " at "@);
    lemma_between(a, eg, b);
    lemma_between(a, fe, b);
    lemma_between(a, ie, b);
    lemma_between(a, ti, b);
    lemma_replace_here(x, y, eg, fe);
    assert(fe[4] == 'e' && fe[5] == 'x' && fe[10] == 'e' && fe[11] == ',');
    assert(eg[0] == 'e' && eg[1] == '.');
    assert forall|j: int| 0 <= j < fe.len() && #[trigger] fe[j] == eg[0] implies exists|k: int|
        0 <= k < eg.len() && j + k < fe.len() && fe[j + k] != #[trigger] eg[k] by {
        assert(fe[j + 1] != eg[1]);
    }
    lemma_replace_apart(x, fe, y, eg, fe);
    assert(ie[0] == 'i' && ie[2] == 'e' && ie[4] == ',' && eg[2] == 'g');
    assert forall|j: int| 0 <= j < ie.len() && #[trigger] ie[j] == eg[0] implies exists|k: int|
        0 <= k < eg.len() && j + k < ie.len() && ie[j + k] != #[trigger] eg[k] by {
        assert(ie[j + 2] != eg[2]);
    }
    lemma_replace_apart(x, ie, y, eg, fe);
    assert forall|j: int| 0 <= j < ti.len() && #[trigger] ti[j] == eg[0] implies exists|k: int|
        0 <= k < eg.len() && j + k < ti.len() && ti[j + k] != #[trigger] eg[k] by {}
    lemma_replace_apart(x, ti, y, eg, fe);
    let u = replace_all(x, eg, fe);
    let v = replace_all(y, eg, fe);
    lemma_replace_here(u, v, ie, ti);
    assert(ti[5] == 'i' && ti[6] == 's' && ie[1] == '.');
    assert forall|j: int| 0 <= j < ti.len() && #[trigger] ti[j] == ie[0] implies exists|k: int|
        0 <= k < ie.len() && j + k < ti.len() && ti[j + k] != #[trigger] ie[k] by {
        assert(ti[j + 1] != ie[1]);
    }
    lemma_replace_apart(u, ti, v, ie, ti);
}

// ---------------------------------------------------------------------------
// Spaces before marks
// ---------------------------------------------------------------------------

/// The marks that no space is left before.
pub open spec fn hugging(c: char) -> bool {
    c == ',' || c == '.' || c == '!' || c == '?' || c == ';' || c == ':' || c == '\''
}

/// Removing the space before a mark takes two parts by themselves, unless the space stands
/// at the end of one and the mark at the start of the other.
proof fn lemma_tighten_add(x: Seq<char>, y: Seq<char>, d: char)
    requires
        !(x.len() > 0 && x.last() == ' ' && y.len() > 0 && y[0] == d),
    ensures
        tighten(x + y, d) == tighten(x, d) + tighten(y, d),
    decreases x.len(),
{
    let from = seq![' ', d];
    let to = seq![d];
    let s = x + y;
    if x.len() == 0 {
        assert(s == y);
        assert(x + tighten(y, d) == tighten(y, d));
    } else if x.len() == 1 {
        assert(tighten(x, d) == x);
        assert(s.skip(1) == y);
        if s.len() >= 2 {
            assert(s.take(2)[0] == x[0] && s.take(2)[1] == y[0]);
            assert(s.take(2) == from ==> from[0] == x[0] && from[1] == y[0]);
            assert(seq![x[0]] + tighten(y, d) == x + tighten(y, d));
        } else {
            assert(y.len() == 0);
            assert(tighten(y, d) == y);
        }
    } else {
        assert(s.take(2) == x.take(2));
        if x.take(2) == from {
            assert(s.skip(2) == x.skip(2) + y);
            lemma_tighten_add(x.skip(2), y, d);
            let r = tighten(x.skip(2), d);
            let q = tighten(y, d);
            assert(to + (r + q) == to + r + q);
        } else {
            assert(s.skip(1) == x.skip(1) + y);
            lemma_tighten_add(x.skip(1), y, d);
            let r = tighten(x.skip(1), d);
            let q = tighten(y, d);
            assert(seq![x[0]] + (r + q) == seq![x[0]] + r + q);
        }
    }
}

/// The ends of a text without the space before marks.
proof fn lemma_tighten_ends(x: Seq<char>, d: char)
    requires
        d != ' ',
    ensures
        tighten(x, d).len() > 0 <==> x.len() > 0,
        x.len() > 0 ==> tighten(x, d).last() == x.last(),
        x.len() > 0 && x[0] != ' ' ==> tighten(x, d)[0] == x[0],
    decreases x.len(),
{
    if x.len() >= 2 {
        if x.take(2) == seq![' ', d] {
            assert(x.take(2)[0] == ' ' && x.take(2)[1] == d);
            assert(x[0] == ' ' && x[1] == d);
            lemma_tighten_ends(x.skip(2), d);
            if x.len() == 2 {
                assert(x.last() == d);
                assert(tighten(x.skip(2), d).len() == 0);
                assert(tighten(x, d) == seq![d] + tighten(x.skip(2), d));
            }
        } else {
            lemma_tighten_ends(x.skip(1), d);
        }
    }
}

/// A text without the space before each of a list of marks.
spec fn tighten_by(t: Seq<char>, list: Seq<char>) -> Seq<char>
    decreases list.len(),
{
    if list.len() == 0 {
        t
    } else {
        tighten(tighten_by(t, list.drop_last()), list.last())
    }
}

spec fn hugging_list() -> Seq<char> {
    seq![',', '.', '!', '?', ';', ':', '\'']
}

proof fn lemma_tightened_by(t: Seq<char>)
    ensures
        tightened(t) == tighten_by(t, hugging_list()),
{
    reveal_with_fuel(tighten_by, 8);
    let l = hugging_list();
    let l6 = l.drop_last();
    let l5 = l6.drop_last();
    let l4 = l5.drop_last();
    let l3 = l4.drop_last();
    let l2 = l3.drop_last();
    let l1 = l2.drop_last();
    assert(l1.drop_last().len() == 0);
    assert(tighten_by(t, l1) == tighten(t, ','));
    assert(tighten_by(t, l2) == tighten(tighten_by(t, l1), '.'));
    assert(tighten_by(t, l3) == tighten(tighten_by(t, l2), '!'));
    assert(tighten_by(t, l4) == tighten(tighten_by(t, l3), '?'));
    assert(tighten_by(t, l5) == tighten(tighten_by(t, l4), ';'));
    assert(tighten_by(t, l6) == tighten(tighten_by(t, l5), ':'));
}

proof fn lemma_hug(a: Seq<char>, m: char, b: Seq<char>, list: Seq<char>)
    requires
        a.len() > 0,
        a.last() != ' ',
        m != ' ',
        forall|k: int| 0 <= k < list.len() ==> #[trigger] list[k] != ' ',
    ensures
        ({
            let x = tighten_by(a, list);
            let y = tighten_by(b, list);
            &&& x.len() > 0 && x.last() != ' '
            &&& tighten_by(a + seq![m] + b, list) == x + seq![m] + y
            &&& tighten_by(a + seq![' ', m] + b, list) == if list.contains(m) {
                x + seq![m] + y
            } else {
                x + seq![' ', m] + y
            }
        }),
    decreases list.len(),
{
    if list.len() > 0 {
        let front = list.drop_last();
        let d = list.last();
        assert forall|k: int| 0 <= k < front.len() implies #[trigger] front[k] != ' ' by {
            assert(front[k] == list[k]);
        }
        assert(d == list[list.len() - 1]);
        lemma_hug(a, m, b, front);
        let x = tighten_by(a, front);
        let y = tighten_by(b, front);
        lemma_tighten_ends(x, d);
        let one = seq![m];
        let two = seq![' ', m];
        assert(tighten(one, d) == one);
        lemma_tighten_add(x + one, y, d);
        lemma_tighten_add(x, one, d);
        lemma_tighten_add(x + two, y, d);
        if d == m {
            assert(two.take(2) == two);
            assert(two.skip(2) == Seq::<char>::empty());
            assert(tighten(Seq::<char>::empty(), d) == Seq::<char>::empty());
            assert(tighten(two, d) == one + Seq::<char>::empty());
            assert(tighten(two, d) == one);
        } else {
            assert(two.take(2)[1] == m);
            assert(two.skip(1) == one);
            assert(tighten(two, d) == seq![' '] + one);
            assert(seq![' '] + one == two);
        }
        lemma_tighten_add(x, two, d);
        if front.contains(m) {
            let k = choose|k: int| 0 <= k < front.len() && front[k] == m;
            assert(list[k] == m);
        } else if list.contains(m) {
            let k = choose|k: int| 0 <= k < list.len() && list[k] == m;
            if k < front.len() {
                assert(front[k] == m);
            }
        }
    } else {
        assert(!list.contains(m));
    }
}

/// Text without pictographs, symbols or Latin abbreviations is not changed before its
/// spaces are.
proof fn lemma_spelled_stays(s: Seq<char>)
    requires
        all_speakable(s),
        !occurs(s, "e.g.,"@),
        !occurs(s, "i.e.,"@),
    ensures
        spelled(plain(s)) == s,
{
    lemma_plain_stays(s);
    reveal_strlit("@");
    let at = "@"@;
    assert(!occurs(s, at)) by {
        if occurs(s, at) {
            let i = choose|i: int|
                0 <= i && i + at.len() <= s.len() && #[trigger] s.subrange(i, i + at.len()) == at;
            assert(s.subrange(i, i + 1)[0] == s[i]);
            assert(speakable(s[i]));
        }
    }
    lemma_replace_stays(s, at, " at "@);
    lemma_replace_stays(s, "e.g.,"@, "for example, "@);
    lemma_replace_stays(s, "i.e.,"@, "that is, "@);
}

/// A space before a punctuation mark reads as if it were not there.
pub proof fn law_space_before_mark(a: Seq<char>, m: char, b: Seq<char>)
    requires
        hugging(m),
        a.len() > 0,
        !white(a.last()),
        all_speakable(a),
        all_speakable(b),
        !occurs(a + seq![m] + b, "e.g.,"@),
        !occurs(a + seq![m] + b, "i.e.,"@),
        !occurs(a + seq![' ', m] + b, "e.g.,"@),
        !occurs(a + seq![' ', m] + b, "i.e.,"@),
    ensures
        clean(a + seq![' ', m] + b) == clean(a + seq![m] + b),
{
    let u = a + seq![m] + b;
    let v = a + seq![' ', m] + b;
    assert(all_speakable(u));
    assert(all_speakable(v));
    lemma_spelled_stays(u);
    lemma_spelled_stays(v);
    lemma_tightened_by(u);
    lemma_tightened_by(v);
    let list = hugging_list();
    assert(list.contains(m)) by {
        assert(list[0] == ',' && list[1] == '.' && list[2] == '!' && list[3] == '?' && list[4]
            == ';' && list[5] == ':' && list[6] == '\'');
    }
    lemma_hug(a, m, b, list);
}

// ---------------------------------------------------------------------------
// White space
// ---------------------------------------------------------------------------

proof fn lemma_tighten_gap(a: Seq<char>, r: Seq<char>, b: Seq<char>, list: Seq<char>)
    requires
        a.len() > 0,
        a.last() != ' ',
        r.len() > 0,
        blank(r),
        b.len() > 0,
        b[0] != ' ',
        !list.contains(b[0]),
        forall|k: int| 0 <= k < list.len() ==> !white(#[trigger] list[k]),
    ensures
        ({
            let x = tighten_by(a, list);
            let y = tighten_by(b, list);
            &&& tighten_by(a + r + b, list) == x + r + y
            &&& x.len() > 0 && x.last() == a.last()
            &&& y.len() > 0 && y[0] == b[0]
        }),
    decreases list.len(),
{
    if list.len() > 0 {
        let front = list.drop_last();
        let d = list.last();
        assert forall|k: int| 0 <= k < front.len() implies !white(#[trigger] front[k]) by {
            assert(front[k] == list[k]);
        }
        assert(d == list[list.len() - 1]);
        assert(list.contains(d));
        assert(!front.contains(b[0])) by {
            if front.contains(b[0]) {
                let k = choose|k: int| 0 <= k < front.len() && front[k] == b[0];
                assert(list[k] == b[0]);
            }
        }
        lemma_tighten_gap(a, r, b, front);
        let x = tighten_by(a, front);
        let y = tighten_by(b, front);
        lemma_tighten_ends(x, d);
        lemma_tighten_ends(y, d);
        assert(!occurs(r, seq![' ', d])) by {
            let p = seq![' ', d];
            if occurs(r, p) {
                let i = choose|i: int|
                    0 <= i && i + p.len() <= r.len() && #[trigger] r.subrange(i, i + p.len()) == p;
                assert(r.subrange(i, i + 2)[1] == r[i + 1]);
            }
        }
        lemma_replace_stays(r, seq![' ', d], seq![d]);
        lemma_tighten_add(x + r, y, d);
        lemma_tighten_add(x, r, d);
    }
}

proof fn lemma_squeeze_add(x: Seq<char>, y: Seq<char>, c: char)
    requires
        !(x.len() > 0 && x.last() == c && y.len() > 0 && y[0] == c),
    ensures
        squeeze(x + y, c) == squeeze(x, c) + squeeze(y, c),
    decreases y.len(),
{
    let s = x + y;
    if y.len() == 0 {
        assert(s == x);
        assert(squeeze(x, c) + squeeze(y, c) == squeeze(x, c));
    } else {
        let z = y.drop_last();
        assert(s.drop_last() == x + z);
        assert(s.last() == y.last());
        lemma_squeeze_add(x, z, c);
        let q = squeeze(x, c);
        let r = squeeze(z, c);
        assert((q + r).push(y.last()) == q + r.push(y.last()));
        if y.len() > 1 {
            assert(s[s.len() - 2] == y[y.len() - 2]);
        } else if s.len() > 1 {
            assert(s[s.len() - 2] == x.last());
        }
    }
}

proof fn lemma_squeeze_ends(x: Seq<char>, c: char)
    ensures
        squeeze(x, c).len() > 0 <==> x.len() > 0,
        x.len() > 0 ==> squeeze(x, c).last() == x.last() && squeeze(x, c)[0] == x[0],
    decreases x.len(),
{
    if x.len() > 0 {
        lemma_squeeze_ends(x.drop_last(), c);
    }
}

proof fn lemma_squeeze_gap(a: Seq<char>, r: Seq<char>, b: Seq<char>, c: char)
    requires
        r.len() > 0,
        blank(r),
        !white(c),
    ensures
        squeeze(a + r + b, c) == squeeze(a, c) + r + squeeze(b, c),
{
    lemma_squeeze_add(a + r, b, c);
    lemma_squeeze_add(a, r, c);
    lemma_squeeze_none(r, c);
}

proof fn lemma_squeeze_none(r: Seq<char>, c: char)
    requires
        blank(r),
        !white(c),
    ensures
        squeeze(r, c) == r,
    decreases r.len(),
{
    if r.len() > 0 {
        let front = r.drop_last();
        assert(blank(front)) by {
            assert forall|k: int| 0 <= k < front.len() implies white(#[trigger] front[k]) by {
                assert(front[k] == r[k]);
            }
        }
        lemma_squeeze_none(front, c);
        assert(white(r[r.len() - 1]));
        assert(front.push(r.last()) == r);
    }
}

/// The end of a run of white space in the first of two texts.
proof fn lemma_white_end_front(x: Seq<char>, y: Seq<char>, i: int)
    requires
        0 <= i <= x.len(),
        x.len() > 0 ==> !white(x.last()) || y.len() == 0 || !white(y[0]),
        i < x.len() || y.len() == 0 || !white(y[0]),
    ensures
        white_end(x + y, i) == white_end(x, i),
    decreases x.len() - i,
{
    if i < x.len() && white(x[i]) {
        assert((x + y)[i] == x[i]);
        if i + 1 == x.len() {
            assert(x[i] == x.last());
        }
        lemma_white_end_front(x, y, i + 1);
    }
}

proof fn lemma_collapse_back(x: Seq<char>, y: Seq<char>, j: int)
    requires
        0 <= j <= y.len(),
    ensures
        collapse_from(x + y, x.len() + j) == collapse_from(y, j),
    decreases y.len() - j,
{
    if j < y.len() {
        assert((x + y)[x.len() + j] == y[j]);
        lemma_white_end_back(x, y, j);
        lemma_white_end(y, j);
        lemma_white_end(y, j + 1);
        if white(y[j]) {
            lemma_collapse_back(x, y, white_end(y, j));
        } else {
            lemma_collapse_back(x, y, j + 1);
        }
    }
}

proof fn lemma_collapse_front(x: Seq<char>, y: Seq<char>, i: int)
    requires
        0 <= i <= x.len(),
        x.len() == 0 || y.len() == 0 || !white(x.last()) || !white(y[0]),
    ensures
        collapse_from(x + y, i) == collapse_from(x, i) + collapse_from(y, 0),
    decreases x.len() - i,
{
    let q = collapse_from(y, 0);
    if i == x.len() {
        lemma_collapse_back(x, y, 0);
        assert(collapse_from(x, i) == Seq::<char>::empty());
        assert(Seq::<char>::empty() + q == q);
    } else {
        assert((x + y)[i] == x[i]);
        if white(x[i]) {
            lemma_white_end_front(x, y, i);
            lemma_white_end(x, i);
            lemma_white_end(x, i + 1);
            let e = white_end(x, i);
            lemma_collapse_front(x, y, e);
            let r = collapse_from(x, e);
            assert(seq![' '] + (r + q) == seq![' '] + r + q);
        } else {
            lemma_collapse_front(x, y, i + 1);
            let r = collapse_from(x, i + 1);
            assert(seq![x[i]] + (r + q) == seq![x[i]] + r + q);
        }
    }
}

proof fn lemma_collapse_blank(r: Seq<char>)
    requires
        r.len() > 0,
        blank(r),
    ensures
        collapse(r) == seq![' '],
{
    lemma_white_end(r, 0);
    lemma_white_end(r, 1);
    assert(white_end(r, 0) == r.len()) by {
        if white_end(r, 0) < r.len() {
            assert(white(r[white_end(r, 0)]));
        }
    }
    assert(collapse_from(r, r.len() as int) == Seq::<char>::empty());
    assert(seq![' '] + Seq::<char>::empty() == seq![' ']);
}

proof fn lemma_white_gap(a: Seq<char>, r: Seq<char>, b: Seq<char>)
    requires
        a.len() > 0,
        !white(a.last()),
        all_speakable(a),
        all_speakable(r),
        all_speakable(b),
        r.len() > 0,
        blank(r),
        b.len() > 0,
        !white(b[0]),
        !hugging(b[0]),
        !occurs(a + r + b, "e.g.,"@),
        !occurs(a + r + b, "i.e.,"@),
    ensures
        collapse(unquoted(tightened(spelled(plain(a + r + b))))) == collapse(
            unquoted(tightened(a)),
        ) + seq![' '] + collapse(unquoted(tightened(b))),
{
    let u = a + r + b;
    assert(all_speakable(u));
    lemma_spelled_stays(u);
    lemma_tightened_by(u);
    lemma_tightened_by(a);
    lemma_tightened_by(b);
    lemma_tighten_gap(a, r, b, hugging_list());
    let x = tightened(a);
    let y = tightened(b);
    lemma_squeeze_gap(x, r, y, '"');
    let x1 = squeeze(x, '"');
    let y1 = squeeze(y, '"');
    lemma_squeeze_ends(x, '"');
    lemma_squeeze_ends(y, '"');
    lemma_squeeze_gap(x1, r, y1, '\'');
    let x2 = squeeze(x1, '\'');
    let y2 = squeeze(y1, '\'');
    lemma_squeeze_ends(x1, '\'');
    lemma_squeeze_ends(y1, '\'');
    lemma_squeeze_gap(x2, r, y2, '`');
    lemma_squeeze_ends(x2, '`');
    lemma_squeeze_ends(y2, '`');
    let x3 = squeeze(x2, '`');
    let y3 = squeeze(y2, '`');
    assert(x3.last() == a.last());
    assert(y3[0] == b[0]);
    lemma_collapse_front(x3 + r, y3, 0);
    lemma_collapse_front(x3, r, 0);
    lemma_collapse_blank(r);
}

/// A run of white space reads as one space, whatever it is made of.
pub proof fn law_white_run_reads_as_space(a: Seq<char>, r: Seq<char>, b: Seq<char>)
    requires
        a.len() > 0,
        !white(a.last()),
        all_speakable(a),
        all_speakable(b),
        r.len() > 0,
        blank(r),
        b.len() > 0,
        !white(b[0]),
        !hugging(b[0]),
        !occurs(a + r + b, "e.g.,"@),
        !occurs(a + r + b, "i.e.,"@),
        !occurs(a + seq![' '] + b, "e.g.,"@),
        !occurs(a + seq![' '] + b, "i.e.,"@),
    ensures
        clean(a + r + b) == clean(a + seq![' '] + b),
{
    assert(all_speakable(r)) by {
        assert forall|k: int| 0 <= k < r.len() implies speakable(#[trigger] r[k]) by {
            assert(white(r[k]));
        }
    }
    lemma_white_gap(a, r, b);
    lemma_white_gap(a, seq![' '], b);
}

// ---------------------------------------------------------------------------
// Letters and digits
// ---------------------------------------------------------------------------

/// Characters that cleaning never touches: letters and digits of every script, and all
/// symbols but white space, marks, quotes, dashes and those that stand for others.
pub open spec fn solid(c: char) -> bool {
    speakable(c) && !white(c) && !hugging(c) && c != '"' && c != '-'
}

/// The solid characters of a text, in order.
pub open spec fn solids(s: Seq<char>) -> Seq<char> {
    s.filter(|c: char| solid(c))
}

/// A text without pictographs and symbols that are dropped.
pub open spec fn bare(s: Seq<char>) -> Seq<char> {
    s.filter(|c: char| !pictograph(c) && !dropped(c))
}

proof fn lemma_solids_add(a: Seq<char>, b: Seq<char>)
    ensures
        solids(a + b) == solids(a) + solids(b),
{
    Seq::filter_distributes_over_add(a, b, |c: char| solid(c));
}

proof fn lemma_solids_one(c: char)
    ensures
        solids(seq![c]) == if solid(c) {
            seq![c]
        } else {
            seq![]
        },
{
    reveal(Seq::filter);
    let s = seq![c];
    let f = |c: char| solid(c);
    assert(s.drop_last() == Seq::<char>::empty());
    assert(s.drop_last().filter(f) == Seq::<char>::empty());
}

proof fn lemma_solids_none()
    ensures
        solids(Seq::<char>::empty()) == Seq::<char>::empty(),
{
    reveal(Seq::filter);
}

proof fn lemma_solids_plain(t: Seq<char>)
    ensures
        solids(plain(t)) == solids(t),
    decreases t.len(),
{
    if t.len() == 0 {
        assert(t == Seq::<char>::empty());
        lemma_plain_none();
    } else {
        let front = t.drop_last();
        let c = t.last();
        lemma_solids_plain(front);
        assert(t == front + seq![c]);
        lemma_plain_add(front, seq![c]);
        lemma_plain_one(c);
        lemma_solids_add(plain(front), plain(seq![c]));
        lemma_solids_add(front, seq![c]);
        lemma_solids_one(c);
        lemma_solids_one(fold(c));
        lemma_solids_none();
    }
}

proof fn lemma_solids_replace(s: Seq<char>, from: Seq<char>, to: Seq<char>)
    requires
        solids(from) == solids(to),
    ensures
        solids(replace_all(s, from, to)) == solids(s),
    decreases s.len(),
{
    let n = from.len() as int;
    if n > 0 && s.len() >= n {
        if s.take(n) == from {
            lemma_solids_replace(s.skip(n), from, to);
            assert(s == from + s.skip(n));
            lemma_solids_add(from, s.skip(n));
            lemma_solids_add(to, replace_all(s.skip(n), from, to));
        } else {
            lemma_solids_replace(s.skip(1), from, to);
            assert(s == seq![s[0]] + s.skip(1));
            lemma_solids_add(seq![s[0]], s.skip(1));
            lemma_solids_add(seq![s[0]], replace_all(s.skip(1), from, to));
        }
    }
}

proof fn lemma_solids_tighten(s: Seq<char>, d: char)
    ensures
        solids(tighten(s, d)) == solids(s),
{
    let from = seq![' ', d];
    assert(from == seq![' '] + seq![d]);
    lemma_solids_add(seq![' '], seq![d]);
    lemma_solids_one(' ');
    assert(Seq::<char>::empty() + solids(seq![d]) == solids(seq![d]));
    lemma_solids_replace(s, from, seq![d]);
}

proof fn lemma_solids_squeeze(s: Seq<char>, c: char)
    requires
        !solid(c),
    ensures
        solids(squeeze(s, c)) == solids(s),
    decreases s.len(),
{
    if s.len() > 0 {
        let front = s.drop_last();
        lemma_solids_squeeze(front, c);
        assert(s == front + seq![s.last()]);
        lemma_solids_add(front, seq![s.last()]);
        lemma_solids_one(s.last());
        let r = squeeze(front, c);
        assert(r.push(s.last()) == r + seq![s.last()]);
        lemma_solids_add(r, seq![s.last()]);
        assert(solids(front) + Seq::<char>::empty() == solids(front));
    }
}

proof fn lemma_solids_blank(s: Seq<char>)
    requires
        blank(s),
    ensures
        solids(s) == Seq::<char>::empty(),
    decreases s.len(),
{
    if s.len() == 0 {
        assert(s == Seq::<char>::empty());
        lemma_solids_none();
    } else {
        let front = s.drop_last();
        assert(blank(front)) by {
            assert forall|k: int| 0 <= k < front.len() implies white(#[trigger] front[k]) by {
                assert(front[k] == s[k]);
            }
        }
        lemma_solids_blank(front);
        assert(white(s[s.len() - 1]));
        assert(s == front + seq![s.last()]);
        lemma_solids_add(front, seq![s.last()]);
        lemma_solids_one(s.last());
        assert(Seq::<char>::empty() + Seq::<char>::empty() == Seq::<char>::empty());
    }
}

proof fn lemma_solids_collapse(s: Seq<char>, i: int)
    requires
        0 <= i <= s.len(),
    ensures
        solids(collapse_from(s, i)) == solids(s.skip(i)),
    decreases s.len() - i,
{
    if i == s.len() {
        assert(s.skip(i) == Seq::<char>::empty());
    } else {
        lemma_white_end(s, i);
        lemma_white_end(s, i + 1);
        if white(s[i]) {
            let e = white_end(s, i);
            lemma_solids_collapse(s, e);
            let run = s.subrange(i, e);
            assert(s.skip(i) == run + s.skip(e));
            lemma_solids_add(run, s.skip(e));
            assert(blank(run)) by {
                assert forall|k: int| 0 <= k < run.len() implies white(#[trigger] run[k]) by {
                    assert(run[k] == s[i + k]);
                }
            }
            lemma_solids_blank(run);
            lemma_solids_add(seq![' '], collapse_from(s, e));
            lemma_solids_one(' ');
        } else {
            lemma_solids_collapse(s, i + 1);
            assert(s.skip(i) == seq![s[i]] + s.skip(i + 1));
            lemma_solids_add(seq![s[i]], s.skip(i + 1));
            lemma_solids_add(seq![s[i]], collapse_from(s, i + 1));
        }
    }
}

proof fn lemma_solids_trim_start(s: Seq<char>)
    ensures
        solids(trim_start(s)) == solids(s),
    decreases s.len(),
{
    if s.len() > 0 && white(s[0]) {
        lemma_solids_trim_start(s.skip(1));
        assert(s == seq![s[0]] + s.skip(1));
        lemma_solids_add(seq![s[0]], s.skip(1));
        lemma_solids_one(s[0]);
        assert(Seq::<char>::empty() + solids(s.skip(1)) == solids(s.skip(1)));
    }
}

proof fn lemma_solids_trim_end(s: Seq<char>)
    ensures
        solids(trim_end(s)) == solids(s),
    decreases s.len(),
{
    if s.len() > 0 && white(s.last()) {
        let front = s.drop_last();
        lemma_solids_trim_end(front);
        assert(s == front + seq![s.last()]);
        lemma_solids_add(front, seq![s.last()]);
        lemma_solids_one(s.last());
        assert(solids(front) + Seq::<char>::empty() == solids(front));
    }
}

/// What is done after spelling out keeps the solid characters.
proof fn lemma_solids_after(t: Seq<char>)
    ensures
        solids(closed(trim(collapse(unquoted(tightened(t)))))) == solids(t),
{
    let a = tighten(t, ',');
    let b = tighten(a, '.');
    let c = tighten(b, '!');
    let d = tighten(c, '?');
    let e = tighten(d, ';');
    let f = tighten(e, ':');
    let g = tighten(f, '\'');
    lemma_solids_tighten(t, ',');
    lemma_solids_tighten(a, '.');
    lemma_solids_tighten(b, '!');
    lemma_solids_tighten(c, '?');
    lemma_solids_tighten(d, ';');
    lemma_solids_tighten(e, ':');
    lemma_solids_tighten(f, '\'');
    let h = squeeze(g, '"');
    let i = squeeze(h, '\'');
    let j = squeeze(i, '`');
    lemma_solids_squeeze(g, '"');
    lemma_solids_squeeze(h, '\'');
    lemma_solids_squeeze(i, '`');
    let k = collapse(j);
    lemma_solids_collapse(j, 0);
    assert(j.skip(0) == j);
    lemma_solids_trim_start(k);
    lemma_solids_trim_end(trim_start(k));
    let l = trim(k);
    assert(l.push('.') == l + seq!['.']);
    lemma_solids_add(l, seq!['.']);
    lemma_solids_one('.');
    assert(solids(l) + Seq::<char>::empty() == solids(l));
}

/// The plain form of a text character by character.
proof fn lemma_plain_form(t: Seq<char>)
    ensures
        plain(t) == bare(t).map_values(|c: char| fold(c)),
    decreases t.len(),
{
    reveal(Seq::filter);
    let g = |c: char| fold(c);
    if t.len() == 0 {
        assert(t == Seq::<char>::empty());
        lemma_plain_none();
        assert(bare(t).map_values(g) == Seq::<char>::empty());
    } else {
        let front = t.drop_last();
        let c = t.last();
        lemma_plain_form(front);
        assert(t == front + seq![c]);
        lemma_plain_add(front, seq![c]);
        lemma_plain_one(c);
        let x = bare(front);
        assert(x.push(c).map_values(g) == x.map_values(g).push(fold(c)));
        assert(x.map_values(g) + seq![fold(c)] == x.map_values(g).push(fold(c)));
        assert(x.map_values(g) + Seq::<char>::empty() == x.map_values(g));
    }
}

/// A pattern of letters, full stops and commas stands in the plain form of a text only
/// where it stands in the bare text.
proof fn lemma_occurs_bare(t: Seq<char>, p: Seq<char>)
    requires
        occurs(plain(t), p),
        forall|k: int| 0 <= k < p.len() ==> solid(#[trigger] p[k]) || p[k] == '.' || p[k] == ',',
    ensures
        occurs(bare(t), p),
{
    lemma_plain_form(t);
    let s = plain(t);
    let x = bare(t);
    let i = choose|i: int|
        0 <= i && i + p.len() <= s.len() && #[trigger] s.subrange(i, i + p.len()) == p;
    assert forall|k: int| 0 <= k < p.len() implies x[i + k] == #[trigger] p[k] by {
        assert(s.subrange(i, i + p.len())[k] == s[i + k]);
        assert(s[i + k] == fold(x[i + k]));
    }
    assert(x.subrange(i, i + p.len()) == p);
}

/// Letters and digits stay: the clean form of a text has its solid characters, all of
/// them and in order, where nothing in it is spelled out.
pub proof fn law_letters_stay(t: Seq<char>)
    requires
        !t.contains('@'),
        !occurs(bare(t), "e.g.,"@),
        !occurs(bare(t), "i.e.,"@),
    ensures
        solids(clean(t)) == solids(t),
{
    reveal_strlit("@");
    reveal_strlit("e.g.,");
    reveal_strlit("i.e.,");
    let p = plain(t);
    lemma_solids_plain(t);
    lemma_plain_form(t);
    assert(!occurs(p, "@"@)) by {
        let at = "@"@;
        if occurs(p, at) {
            let i = choose|i: int|
                0 <= i && i + at.len() <= p.len() && #[trigger] p.subrange(i, i + at.len()) == at;
            assert(p.subrange(i, i + 1)[0] == p[i]);
            let x = bare(t);
            assert(p[i] == fold(x[i]));
            assert(x[i] == '@');
            broadcast use vstd::seq_lib::group_filter_ensures;
            assert(x.contains('@'));
            lemma_bare_source(t, i);
        }
    }
    lemma_replace_stays(p, "@"@, " at "@);
    if occurs(p, "e.g.,"@) {
        lemma_occurs_bare(t, "e.g.,"@);
    }
    lemma_replace_stays(p, "e.g.,"@, "for example, "@);
    if occurs(p, "i.e.,"@) {
        lemma_occurs_bare(t, "i.e.,"@);
    }
    lemma_replace_stays(p, "i.e.,"@, "that is, "@);
    lemma_solids_after(p);
}

/// What the bare text holds was there.
proof fn lemma_bare_source(t: Seq<char>, i: int)
    requires
        0 <= i < bare(t).len(),
    ensures
        t.contains(bare(t)[i]),
    decreases t.len(),
{
    reveal(Seq::filter);
    if t.len() > 0 {
        let front = t.drop_last();
        if i < bare(front).len() {
            lemma_bare_source(front, i);
            let j = choose|j: int| 0 <= j < front.len() && front[j] == bare(front)[i];
            assert(t[j] == bare(t)[i]);
        } else {
            assert(t[t.len() - 1] == bare(t)[i]);
        }
    }
}

} // verus!
