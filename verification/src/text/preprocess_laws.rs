//! What holds of every clean text.

use vstd::prelude::*;

use crate::strings::{lemma_white_end, replace_all, trim, white, white_end};
use crate::text::chunk_laws::{lemma_trim, neat, run_of};
use crate::text::patterns::{collapse, collapse_from, emoji};
use crate::text::preprocess::{
    chunk_limit, clean, closed, fold, mute, plain, spelled, squeeze, tagged, tighten, tightened,
    unquoted, valid_lang, AVAILABLE_LANGS,
};

verus! {

/// Emoji and pictographs, flags among them.
pub open spec fn pictograph(c: char) -> bool {
    ||| '\u{2600}' <= c <= '\u{27BF}'
    ||| '\u{1F1E6}' <= c <= '\u{1F1FF}'
    ||| '\u{1F300}' <= c <= '\u{1F64F}'
    ||| '\u{1F680}' <= c <= '\u{1FAFF}'
}

/// Symbols that are dropped: hearts, a star, the copyright sign and the backslash.
pub open spec fn dropped(c: char) -> bool {
    c == '\u{2665}' || c == '\u{2606}' || c == '\u{2661}' || c == '\u{a9}' || c == '\\'
}

/// Typographic dashes.
pub open spec fn long_dash(c: char) -> bool {
    c == '\u{2011}' || c == '\u{2013}' || c == '\u{2014}'
}

/// Typographic double quotes.
pub open spec fn double_quote(c: char) -> bool {
    c == '\u{201C}' || c == '\u{201D}'
}

/// Typographic single quotes and accents that stand for one.
pub open spec fn single_quote(c: char) -> bool {
    c == '\u{2018}' || c == '\u{2019}' || c == '\u{b4}' || c == '`'
}

/// Symbols that stand for a space: the underscore, square brackets, bars, slashes, the
/// hash and arrows.
pub open spec fn spacer(c: char) -> bool {
    ||| c == '_' || c == '[' || c == ']' || c == '|' || c == '/' || c == '#'
    ||| c == '\u{2190}' || c == '\u{2192}'
}

/// The marks that close a text.
pub open spec fn closes(c: char) -> bool {
    ||| c == '.' || c == '!' || c == '?' || c == ';' || c == ':' || c == ','
    ||| c == '\'' || c == '"' || c == '\u{2018}' || c == '\u{2019}' || c == '\u{201C}' || c
        == '\u{201D}'
    ||| c == ')' || c == ']' || c == '}' || c == '\u{2026}' || c == '\u{3002}'
    ||| c == '\u{300d}' || c == '\u{300f}' || c == '\u{3011}' || c == '\u{3009}' || c
        == '\u{300b}'
    ||| c == '\u{203a}' || c == '\u{bb}'
}

/// The characters that a clean text may hold: no emoji, no mute symbol, and
/// none that has a plain form other than itself or is spelled out.
pub open spec fn speakable(c: char) -> bool {
    &&& !pictograph(c)
    &&& !dropped(c)
    &&& !long_dash(c)
    &&& !double_quote(c)
    &&& !single_quote(c)
    &&& !spacer(c)
    &&& c != '@'
}

/// Whether every character of `s` is speakable but for `@`.
pub open spec fn nearly_speakable(s: Seq<char>) -> bool {
    forall|i: int| 0 <= i < s.len() ==> speakable(#[trigger] s[i]) || s[i] == '@'
}

/// Whether every character of `s` is speakable.
pub open spec fn all_speakable(s: Seq<char>) -> bool {
    forall|i: int| 0 <= i < s.len() ==> speakable(#[trigger] s[i])
}

/// Whether `c` nowhere follows itself in `s`.
pub open spec fn no_pair(s: Seq<char>, c: char) -> bool {
    forall|i: int| 0 <= i && i + 1 < s.len() ==> !(#[trigger] s[i] == c && s[i + 1] == c)
}

proof fn lemma_plain(t: Seq<char>)
    ensures
        nearly_speakable(plain(t)),
{
    let bare = t.filter(|c: char| !emoji(c));
    let folded = bare.map_values(|c: char| fold(c));
    let kept = folded.filter(|c: char| !mute(c));
    broadcast use vstd::seq_lib::group_filter_ensures;
    assert forall|i: int| 0 <= i < kept.len() implies speakable(#[trigger] kept[i]) || kept[i]
        == '@' by {
        assert(!mute(kept[i]));
        lemma_filter_source(folded, |c: char| !mute(c), i);
        let j = choose|j: int| 0 <= j < folded.len() && folded[j] == kept[i];
        assert(!emoji(bare[j]));
        assert(folded[j] == fold(bare[j]));
    }
}

/// What a filter keeps was there.
proof fn lemma_filter_source(s: Seq<char>, keep: spec_fn(char) -> bool, i: int)
    requires
        0 <= i < s.filter(keep).len(),
    ensures
        exists|j: int| 0 <= j < s.len() && s[j] == s.filter(keep)[i],
    decreases s.len(),
{
    reveal(Seq::filter);
    if s.len() > 0 {
        let front = s.drop_last();
        if i < front.filter(keep).len() {
            lemma_filter_source(front, keep, i);
            let j = choose|j: int| 0 <= j < front.len() && front[j] == front.filter(keep)[i];
            assert(s[j] == s.filter(keep)[i]);
        } else {
            assert(s[s.len() - 1] == s.filter(keep)[i]);
        }
    }
}

/// Replacing keeps to the characters of the text and of the replacement, and
/// leaves no character that is replaced on its own.
proof fn lemma_replace_all(s: Seq<char>, from: Seq<char>, to: Seq<char>, i: int)
    requires
        0 <= i < replace_all(s, from, to).len(),
    ensures
        ({
            let c = replace_all(s, from, to)[i];
            &&& s.contains(c) || to.contains(c)
            &&& from.len() == 1 && !to.contains(from[0]) ==> c != from[0]
        }),
    decreases s.len(),
{
    let r = replace_all(s, from, to);
    let n = from.len() as int;
    if n == 0 || s.len() < n {
        assert(r == s);
        assert(s.contains(s[i]));
    } else if s.take(n) == from {
        if i < to.len() {
            assert(r[i] == to[i]);
        } else {
            lemma_replace_all(s.skip(n), from, to, i - to.len());
            let c = r[i];
            assert(c == replace_all(s.skip(n), from, to)[i - to.len()]);
            if s.skip(n).contains(c) {
                let j = choose|j: int| 0 <= j < s.skip(n).len() && s.skip(n)[j] == c;
                assert(s[j + n] == c);
            }
        }
    } else {
        if i == 0 {
            assert(r[0] == s[0]);
            if n == 1 && s[0] == from[0] {
                assert(s.take(1) == from);
            }
        } else {
            lemma_replace_all(s.skip(1), from, to, i - 1);
            let c = r[i];
            assert(c == replace_all(s.skip(1), from, to)[i - 1]);
            if s.skip(1).contains(c) {
                let j = choose|j: int| 0 <= j < s.skip(1).len() && s.skip(1)[j] == c;
                assert(s[j + 1] == c);
            }
        }
    }
}

/// Replacing by speakable text keeps a text speakable.
proof fn lemma_replace_speakable(s: Seq<char>, from: Seq<char>, to: Seq<char>)
    requires
        all_speakable(s),
        all_speakable(to),
    ensures
        all_speakable(replace_all(s, from, to)),
{
    let r = replace_all(s, from, to);
    assert forall|i: int| 0 <= i < r.len() implies speakable(#[trigger] r[i]) by {
        lemma_replace_all(s, from, to, i);
    }
}

proof fn lemma_spelled(t: Seq<char>)
    requires
        nearly_speakable(t),
    ensures
        all_speakable(spelled(t)),
{
    reveal_strlit("@");
    reveal_strlit(" at ");
    reveal_strlit("for example, ");
    reveal_strlit("that is, ");
    let a = replace_all(t, "@"@, " at "@);
    assert forall|i: int| 0 <= i < a.len() implies speakable(#[trigger] a[i]) by {
        lemma_replace_all(t, "@"@, " at "@, i);
        assert("@"@[0] == '@');
        assert(!" at "@.contains('@'));
    }
    assert(all_speakable("for example, "@));
    assert(all_speakable("that is, "@));
    let b = replace_all(a, "e.g.,"@, "for example, "@);
    lemma_replace_speakable(a, "e.g.,"@, "for example, "@);
    lemma_replace_speakable(b, "i.e.,"@, "that is, "@);
}

proof fn lemma_tighten(t: Seq<char>, mark: char)
    requires
        all_speakable(t),
        speakable(mark),
    ensures
        all_speakable(tighten(t, mark)),
{
    lemma_replace_speakable(t, seq![' ', mark], seq![mark]);
}

proof fn lemma_tightened(t: Seq<char>)
    requires
        all_speakable(t),
    ensures
        all_speakable(tightened(t)),
{
    let a = tighten(t, ',');
    lemma_tighten(t, ',');
    let b = tighten(a, '.');
    lemma_tighten(a, '.');
    let c = tighten(b, '!');
    lemma_tighten(b, '!');
    let d = tighten(c, '?');
    lemma_tighten(c, '?');
    let e = tighten(d, ';');
    lemma_tighten(d, ';');
    let f = tighten(e, ':');
    lemma_tighten(e, ':');
    lemma_tighten(f, '\'');
}

proof fn lemma_squeeze(t: Seq<char>, c: char, d: char)
    ensures
        no_pair(squeeze(t, c), c),
        no_pair(t, d) ==> no_pair(squeeze(t, c), d),
        all_speakable(t) ==> all_speakable(squeeze(t, c)),
        squeeze(t, c).len() > 0 <==> t.len() > 0,
        t.len() > 0 ==> squeeze(t, c).last() == t.last(),
    decreases t.len(),
{
    if t.len() > 0 {
        let front = t.drop_last();
        lemma_squeeze(front, c, d);
        assert(no_pair(t, d) ==> no_pair(front, d)) by {
            if no_pair(t, d) {
                assert forall|i: int| 0 <= i && i + 1 < front.len() implies !(#[trigger] front[i]
                    == d && front[i + 1] == d) by {
                    assert(t[i] == front[i] && t[i + 1] == front[i + 1]);
                }
            }
        }
        assert(all_speakable(t) ==> all_speakable(front) && speakable(t.last())) by {
            if all_speakable(t) {
                assert forall|i: int| 0 <= i < front.len() implies speakable(
                    #[trigger] front[i],
                ) by {
                    assert(t[i] == front[i]);
                }
                assert(t[t.len() - 1] == t.last());
            }
        }
        let f = squeeze(front, c);
        if !(t.last() == c && t.len() > 1 && t[t.len() - 2] == c) {
            let r = f.push(t.last());
            if t.len() > 1 {
                assert(front.last() == t[t.len() - 2]);
            }
            assert forall|i: int| 0 <= i && i + 1 < r.len() implies !(#[trigger] r[i] == c && r[i
                + 1] == c) by {
                if i + 1 < f.len() {
                    assert(r[i] == f[i] && r[i + 1] == f[i + 1]);
                } else {
                    assert(r[i] == f.last());
                }
            }
            if no_pair(t, d) {
                assert forall|i: int| 0 <= i && i + 1 < r.len() implies !(#[trigger] r[i] == d
                    && r[i + 1] == d) by {
                    if i + 1 < f.len() {
                        assert(r[i] == f[i] && r[i + 1] == f[i + 1]);
                    } else {
                        assert(r[i] == f.last());
                        let k = t.len() - 2;
                        assert(!(t[k] == d && t[k + 1] == d));
                    }
                }
            }
        } else {
            assert(front.last() == c);
        }
    }
}

proof fn lemma_collapse(s: Seq<char>, i: int, d: char)
    requires
        0 <= i <= s.len(),
    ensures
        ({
            let r = collapse_from(s, i);
            &&& r.len() > 0 <==> i < s.len()
            &&& i < s.len() ==> r[0] == if white(s[i]) { ' ' } else { s[i] }
            &&& forall|k: int| 0 <= k < r.len() && white(#[trigger] r[k]) ==> r[k] == ' '
            &&& no_pair(r, ' ')
            &&& !white(d) && no_pair(s, d) ==> no_pair(r, d)
            &&& all_speakable(s) ==> all_speakable(r)
        }),
    decreases s.len() - i,
{
    if i < s.len() {
        let r = collapse_from(s, i);
        lemma_white_end(s, i);
        let head = if white(s[i]) { ' ' } else { s[i] };
        let next = if white(s[i]) { white_end(s, i) } else { i + 1 };
        assert(next > i) by {
            if white(s[i]) {
                lemma_white_end(s, i + 1);
            }
        }
        lemma_collapse(s, next, d);
        let tail = collapse_from(s, next);
        assert(r == seq![head] + tail);
        assert forall|k: int| 0 <= k < r.len() && white(#[trigger] r[k]) implies r[k] == ' ' by {
            if k > 0 {
                assert(r[k] == tail[k - 1]);
            }
        }
        assert forall|k: int| 0 <= k && k + 1 < r.len() implies !(#[trigger] r[k] == ' ' && r[k + 1]
            == ' ') by {
            if k > 0 {
                assert(r[k] == tail[k - 1] && r[k + 1] == tail[k - 1 + 1]);
            } else {
                assert(r[1] == tail[0]);
                if white(s[i]) {
                    assert(!white(s[next]));
                }
            }
        }
        if !white(d) && no_pair(s, d) {
            assert forall|k: int| 0 <= k && k + 1 < r.len() implies !(#[trigger] r[k] == d && r[k
                + 1] == d) by {
                if k > 0 {
                    assert(r[k] == tail[k - 1] && r[k + 1] == tail[k - 1 + 1]);
                } else {
                    assert(r[1] == tail[0]);
                    assert(!(s[i] == d && s[i + 1] == d));
                }
            }
        }
        if all_speakable(s) {
            assert forall|k: int| 0 <= k < r.len() implies speakable(#[trigger] r[k]) by {
                if k > 0 {
                    assert(r[k] == tail[k - 1]);
                } else {
                    assert(speakable(s[i]));
                }
            }
        }
    }
}

/// A stretch of a text has the pairs that the text has, and its characters.
proof fn lemma_stretch(a: Seq<char>, s: Seq<char>, d: char)
    requires
        run_of(a, s),
    ensures
        no_pair(s, d) ==> no_pair(a, d),
        all_speakable(s) ==> all_speakable(a),
        forall|k: int| 0 <= k < a.len() ==> s.contains(#[trigger] a[k]),
{
    let (i, j) = choose|i: int, j: int| 0 <= i <= j <= s.len() && a == #[trigger] s.subrange(i, j);
    assert forall|k: int| 0 <= k < a.len() implies s.contains(#[trigger] a[k]) && a[k] == s[i + k] by {
        assert(a[k] == s[i + k]);
    }
    if no_pair(s, d) {
        assert forall|k: int| 0 <= k && k + 1 < a.len() implies !(#[trigger] a[k] == d && a[k + 1]
            == d) by {
            assert(a[k] == s[i + k] && a[k + 1] == s[i + k + 1]);
        }
    }
    if all_speakable(s) {
        assert forall|k: int| 0 <= k < a.len() implies speakable(#[trigger] a[k]) by {
            assert(a[k] == s[i + k]);
        }
    }
}

/// The text before it is closed.
spec fn open_text(t: Seq<char>) -> Seq<char> {
    trim(collapse(unquoted(tightened(spelled(plain(t))))))
}

proof fn lemma_open_text(t: Seq<char>)
    ensures
        all_speakable(open_text(t)),
        open_text(t).len() > 0 ==> neat(open_text(t)),
        forall|k: int|
            0 <= k < open_text(t).len() && white(#[trigger] open_text(t)[k]) ==> open_text(t)[k]
                == ' ',
        no_pair(open_text(t), ' '),
        no_pair(open_text(t), '"'),
        no_pair(open_text(t), '\''),
{
    let a = tightened(spelled(plain(t)));
    lemma_plain(t);
    lemma_spelled(plain(t));
    lemma_tightened(spelled(plain(t)));
    let b = squeeze(a, '"');
    let c = squeeze(b, '\'');
    let e = squeeze(c, '`');
    lemma_squeeze(a, '"', '"');
    lemma_squeeze(b, '\'', '"');
    lemma_squeeze(c, '`', '"');
    lemma_squeeze(c, '`', '\'');
    lemma_collapse(e, 0, '"');
    lemma_collapse(e, 0, '\'');
    let f = collapse(e);
    lemma_trim(f);
    lemma_stretch(trim(f), f, '"');
    lemma_stretch(trim(f), f, '\'');
    lemma_stretch(trim(f), f, ' ');
    assert forall|k: int| 0 <= k < trim(f).len() && white(#[trigger] trim(f)[k]) implies trim(f)[k]
        == ' ' by {
        assert(f.contains(trim(f)[k]));
        let j = choose|j: int| 0 <= j < f.len() && f[j] == trim(f)[k];
        assert(white(collapse_from(e, 0)[j]));
    }
}

/// Closing a text adds no pair of a character but the full stop.
proof fn lemma_closed(t: Seq<char>, d: char)
    requires
        d != '.',
    ensures
        no_pair(t, d) ==> no_pair(closed(t), d),
{
    if no_pair(t, d) {
        let r = closed(t);
        assert forall|i: int| 0 <= i && i + 1 < r.len() implies !(#[trigger] r[i] == d && r[i + 1]
            == d) by {
            if i + 1 < t.len() {
                assert(r[i] == t[i] && r[i + 1] == t[i + 1]);
            }
        }
    }
}

// ---------------------------------------------------------------------------
// Laws
// ---------------------------------------------------------------------------

/// A clean text holds speakable characters only: no emoji, no dropped symbol, no
/// typographic dash or quote, no bracket, bar or underscore, and no `@`.
pub proof fn law_clean_speakable(t: Seq<char>, i: int)
    requires
        0 <= i < clean(t).len(),
    ensures
        speakable(clean(t)[i]),
{
    lemma_open_text(t);
    if i < open_text(t).len() {
        assert(clean(t)[i] == open_text(t)[i]);
    }
}

/// A clean text has no white space at its ends; within it, white space is single
/// spaces.
pub proof fn law_clean_spacing(t: Seq<char>)
    ensures
        clean(t).len() > 0 ==> neat(clean(t)),
        forall|i: int| 0 <= i < clean(t).len() && white(#[trigger] clean(t)[i]) ==> clean(t)[i] == ' ',
        no_pair(clean(t), ' '),
{
    lemma_open_text(t);
    lemma_closed(open_text(t), ' ');
    assert forall|i: int| 0 <= i < clean(t).len() && white(#[trigger] clean(t)[i]) implies clean(
        t,
    )[i] == ' ' by {
        if i < open_text(t).len() {
            assert(clean(t)[i] == open_text(t)[i]);
        }
    }
    if clean(t).len() > 0 {
        assert(clean(t)[0] == open_text(t)[0]);
    }
}

/// A clean text has no doubled quotes.
pub proof fn law_clean_quotes(t: Seq<char>)
    ensures
        no_pair(clean(t), '"'),
        no_pair(clean(t), '\''),
{
    lemma_open_text(t);
    lemma_closed(open_text(t), '"');
    lemma_closed(open_text(t), '\'');
}

/// A clean text is empty or ends with a closing mark.
pub proof fn law_clean_closed(t: Seq<char>)
    ensures
        clean(t).len() == 0 || closes(clean(t).last()),
{
}

/// A tagged text is its text between the two tags of its language, and the text
/// can be read back from it.
pub proof fn law_tags_surround(t: Seq<char>, lang: Seq<char>)
    ensures
        ({
            let r = tagged(t, lang);
            let n = lang.len() as int;
            &&& r.take(n + 2) == "<"@ + lang + ">"@
            &&& r.skip(r.len() - n - 3) == "</"@ + lang + ">"@
            &&& r.subrange(n + 2, r.len() - n - 3) == t
        }),
{
    reveal_strlit("<");
    reveal_strlit(">");
    reveal_strlit("</");
    let r = tagged(t, lang);
    let n = lang.len() as int;
    assert(r.take(n + 2) == "<"@ + lang + ">"@);
    assert(r.skip(r.len() - n - 3) == "</"@ + lang + ">"@);
    assert(r.subrange(n + 2, r.len() - n - 3) == t);
}

// ---------------------------------------------------------------------------
// Clean text stays
// ---------------------------------------------------------------------------

/// Whether `pattern` stands somewhere in `s`.
pub open spec fn occurs(s: Seq<char>, pattern: Seq<char>) -> bool {
    exists|i: int|
        0 <= i && i + pattern.len() <= s.len() && #[trigger] s.subrange(i, i + pattern.len())
            == pattern
}

/// Whether nowhere in `s` a space stands before `mark`.
pub open spec fn tight(s: Seq<char>, mark: char) -> bool {
    forall|i: int| 0 <= i && i + 1 < s.len() ==> !(#[trigger] s[i] == ' ' && s[i + 1] == mark)
}

/// Whether there is nothing to clean in a text, but that it may lack a closing mark.
pub open spec fn nearly_tidy(s: Seq<char>) -> bool {
    &&& all_speakable(s)
    &&& s.len() > 0 ==> neat(s)
    &&& forall|i: int| 0 <= i < s.len() && white(#[trigger] s[i]) ==> s[i] == ' '
    &&& no_pair(s, ' ') && no_pair(s, '"') && no_pair(s, '\'')
    &&& !occurs(s, "e.g.,"@) && !occurs(s, "i.e.,"@)
    &&& tight(s, ',') && tight(s, '.') && tight(s, '!') && tight(s, '?')
    &&& tight(s, ';') && tight(s, ':') && tight(s, '\'')
}

/// Whether there is nothing to clean in a text.
pub open spec fn tidy(s: Seq<char>) -> bool {
    nearly_tidy(s) && (s.len() > 0 ==> closes(s.last()))
}

proof fn lemma_filter_stays(s: Seq<char>, keep: spec_fn(char) -> bool)
    requires
        forall|i: int| 0 <= i < s.len() ==> keep(#[trigger] s[i]),
    ensures
        s.filter(keep) == s,
    decreases s.len(),
{
    reveal(Seq::filter);
    if s.len() > 0 {
        let front = s.drop_last();
        assert forall|i: int| 0 <= i < front.len() implies keep(#[trigger] front[i]) by {
            assert(front[i] == s[i]);
        }
        lemma_filter_stays(front, keep);
        assert(keep(s[s.len() - 1]));
        assert(front.push(s.last()) == s);
    } else {
        assert(s.filter(keep) == s);
    }
}

pub proof fn lemma_plain_stays(s: Seq<char>)
    requires
        all_speakable(s),
    ensures
        plain(s) == s,
{
    lemma_filter_stays(s, |c: char| !emoji(c));
    assert(s.map_values(|c: char| fold(c)) == s);
    lemma_filter_stays(s, |c: char| !mute(c));
}

pub proof fn lemma_replace_stays(s: Seq<char>, from: Seq<char>, to: Seq<char>)
    requires
        !occurs(s, from),
    ensures
        replace_all(s, from, to) == s,
    decreases s.len(),
{
    let n = from.len() as int;
    if n > 0 && s.len() >= n {
        assert(s.subrange(0, 0 + n) == s.take(n));
        let rest = s.skip(1);
        assert(!occurs(rest, from)) by {
            if occurs(rest, from) {
                let i = choose|i: int|
                    0 <= i && i + n <= rest.len() && #[trigger] rest.subrange(i, i + n) == from;
                assert(s.subrange(i + 1, i + 1 + n) == rest.subrange(i, i + n));
            }
        }
        lemma_replace_stays(rest, from, to);
        assert(seq![s[0]] + rest == s);
    }
}

proof fn lemma_tighten_stays(s: Seq<char>, mark: char)
    requires
        tight(s, mark),
    ensures
        tighten(s, mark) == s,
{
    let from = seq![' ', mark];
    assert(!occurs(s, from)) by {
        if occurs(s, from) {
            let i = choose|i: int|
                0 <= i && i + from.len() <= s.len() && #[trigger] s.subrange(i, i + from.len())
                    == from;
            assert(s.subrange(i, i + 2)[0] == s[i]);
            assert(s.subrange(i, i + 2)[1] == s[i + 1]);
        }
    }
    lemma_replace_stays(s, from, seq![mark]);
}

proof fn lemma_squeeze_stays(s: Seq<char>, c: char)
    requires
        no_pair(s, c),
    ensures
        squeeze(s, c) == s,
    decreases s.len(),
{
    if s.len() > 0 {
        let front = s.drop_last();
        assert forall|i: int| 0 <= i && i + 1 < front.len() implies !(#[trigger] front[i] == c
            && front[i + 1] == c) by {
            assert(front[i] == s[i] && front[i + 1] == s[i + 1]);
        }
        lemma_squeeze_stays(front, c);
        if s.len() > 1 {
            let k = s.len() - 2;
            assert(!(s[k] == c && s[k + 1] == c));
        }
        assert(front.push(s.last()) == s);
    } else {
        assert(squeeze(s, c) == s);
    }
}

proof fn lemma_collapse_stays(s: Seq<char>, i: int)
    requires
        0 <= i <= s.len(),
        no_pair(s, ' '),
        forall|k: int| 0 <= k < s.len() && white(#[trigger] s[k]) ==> s[k] == ' ',
    ensures
        collapse_from(s, i) == s.skip(i),
    decreases s.len() - i,
{
    if i < s.len() {
        lemma_white_end(s, i);
        lemma_white_end(s, i + 1);
        lemma_collapse_stays(s, i + 1);
        if white(s[i]) {
            assert(s[i] == ' ');
            if i + 1 < s.len() {
                assert(!(s[i] == ' ' && s[i + 1] == ' '));
                assert(!white(s[i + 1]));
            }
            assert(white_end(s, i) == i + 1);
        }
        assert(seq![s[i]] + s.skip(i + 1) == s.skip(i));
    } else {
        assert(s.skip(i) == Seq::<char>::empty());
    }
}

/// A text with nothing to clean stays as it is, so that an utterance of it is the text
/// between the tags.
pub proof fn law_tidy_text_stays(s: Seq<char>)
    requires
        tidy(s),
    ensures
        clean(s) == s,
{
    law_tidy_text_is_closed(s);
}

/// A text with nothing to clean gets a full stop where no mark closes it, and no other
/// change.
pub proof fn law_tidy_text_is_closed(s: Seq<char>)
    requires
        nearly_tidy(s),
    ensures
        clean(s) == if s.len() > 0 && !closes(s.last()) {
            s.push('.')
        } else {
            s
        },
{
    lemma_plain_stays(s);
    assert(!occurs(s, "@"@)) by {
        reveal_strlit("@");
        if occurs(s, "@"@) {
            let i = choose|i: int|
                0 <= i && i + "@"@.len() <= s.len() && #[trigger] s.subrange(i, i + "@"@.len())
                    == "@"@;
            assert(s.subrange(i, i + 1)[0] == s[i]);
            assert("@"@[0] == '@');
        }
    }
    lemma_replace_stays(s, "@"@, " at "@);
    lemma_replace_stays(s, "e.g.,"@, "for example, "@);
    lemma_replace_stays(s, "i.e.,"@, "that is, "@);
    lemma_tighten_stays(s, ',');
    lemma_tighten_stays(s, '.');
    lemma_tighten_stays(s, '!');
    lemma_tighten_stays(s, '?');
    lemma_tighten_stays(s, ';');
    lemma_tighten_stays(s, ':');
    lemma_tighten_stays(s, '\'');
    lemma_squeeze_stays(s, '"');
    lemma_squeeze_stays(s, '\'');
    assert(no_pair(s, '`')) by {
        assert forall|i: int| 0 <= i && i + 1 < s.len() implies !(#[trigger] s[i] == '`' && s[i + 1]
            == '`') by {
            assert(speakable(s[i]));
        }
    }
    lemma_squeeze_stays(s, '`');
    lemma_collapse_stays(s, 0);
    assert(s.skip(0) == s);
    reveal_with_fuel(crate::strings::trim_start, 2);
    reveal_with_fuel(crate::strings::trim_end, 2);
    assert(trim(s) == s);
}

// ---------------------------------------------------------------------------
// Languages
// ---------------------------------------------------------------------------

/// The languages are English, Korean, Japanese, Arabic, Bulgarian, Czech, Danish, German,
/// Greek, Spanish, Estonian, Finnish, French, Hindi, Croatian, Hungarian, Indonesian,
/// Italian, Lithuanian, Latvian, Dutch, Polish, Portuguese, Romanian, Russian, Slovak,
/// Slovenian, Swedish, Turkish, Ukrainian and Vietnamese, by their codes.
pub proof fn law_languages(lang: Seq<char>)
    ensures
        valid_lang(lang) <==> ({
            ||| lang == "en"@ || lang == "ko"@ || lang == "ja"@ || lang == "ar"@ || lang == "bg"@
            ||| lang == "cs"@ || lang == "da"@ || lang == "de"@ || lang == "el"@ || lang == "es"@
            ||| lang == "et"@ || lang == "fi"@ || lang == "fr"@ || lang == "hi"@ || lang == "hr"@
            ||| lang == "hu"@ || lang == "id"@ || lang == "it"@ || lang == "lt"@ || lang == "lv"@
            ||| lang == "nl"@ || lang == "pl"@ || lang == "pt"@ || lang == "ro"@ || lang == "ru"@
            ||| lang == "sk"@ || lang == "sl"@ || lang == "sv"@ || lang == "tr"@ || lang == "uk"@
            ||| lang == "vi"@
        }),
{
    let l = AVAILABLE_LANGS@;
    assert(l[0] == "en" && l[1] == "ko" && l[2] == "ja" && l[3] == "ar" && l[4] == "bg" && l[5]
        == "cs" && l[6] == "da" && l[7] == "de" && l[8] == "el" && l[9] == "es" && l[10] == "et"
        && l[11] == "fi" && l[12] == "fr" && l[13] == "hi" && l[14] == "hr" && l[15] == "hu"
        && l[16] == "id" && l[17] == "it" && l[18] == "lt" && l[19] == "lv" && l[20] == "nl"
        && l[21] == "pl" && l[22] == "pt" && l[23] == "ro" && l[24] == "ru" && l[25] == "sk"
        && l[26] == "sl" && l[27] == "sv" && l[28] == "tr" && l[29] == "uk" && l[30] == "vi");
}

/// A chunk has at most 120 characters of Korean or Japanese, and at most 300 of any other
/// language.
pub proof fn law_chunk_limits(lang: Seq<char>)
    ensures
        chunk_limit(lang) == if lang == "ko"@ || lang == "ja"@ {
            120int
        } else {
            300int
        },
{
}

} // verus!
